//! The backtracking virtual machine over plain bytes, and the small-step
//! semantics that both it and the ciphertext machine are verified against.
//!
//! A configuration holds the program counter, the input position, the
//! continuation state, the latched exact-match flag and the backtrack stack.
//! [`step`] gives one transition; [`run_to`] iterates it under a fuel bound
//! (fuel is spent per transition, halting needs none); [`sem`] is the result
//! under the machines' fixed budget of `u64::MAX` transitions, `None` only
//! for a run still going after that many steps.  `Machine::run` returns
//! exactly `sem(program, input) == Some(true)`, and [`run_to`] is a function
//! of the program and input alone, so any two complete runs agree
//! ([`lemma_run_deterministic`]).

use vstd::prelude::*;

use crate::program::{in_ranges, Action, Instruction, Program};
use crate::program::{item_wf, prog_view, program_wf, InstrV, ItemV};

verus! {

/// The transition budget of a run: fuel is spent only when a step keeps
/// going, so a run falls short of its result only after this many steps.
pub const RUN_FUEL: u64 = u64::MAX;

/// A saved alternative: the program counter to resume at and the input
/// position to rewind to.
#[derive(Clone, Copy, Debug)]
pub struct Context {
    pub program_counter: usize,
    pub string_counter: usize,
}

/// A configuration of the machine (ghost: the mathematical state).
pub struct Cfg {
    pub pc: int,
    pub sc: int,
    pub st: int,
    pub exact: bool,
    pub stack: Seq<Context>,
}

/// The outcome of one transition: continue in a new configuration, or halt
/// with the match result.
pub enum StepRes {
    Going(Cfg),
    Done(bool),
}

/// The configuration every run starts from.
pub open spec fn init_cfg() -> Cfg {
    Cfg { pc: 0, sc: 0, st: 0, exact: false, stack: Seq::empty() }
}

/// The UTF-8 bytes of a pattern or input string; matching is over bytes.
pub open spec fn text_bytes(s: Seq<char>) -> Seq<u8> {
    vstd::utf8::encode_utf8(s)
}

/// Recovery after an unrecoverable failed match: pop a saved alternative if
/// one exists; otherwise rewind to the previous instruction's suggested
/// continuation, halting with reject if that instruction is a `Jump` or if
/// exact-match mode is latched.
pub open spec fn fail_step(prog: Seq<ItemV>, c: Cfg) -> StepRes {
    if c.stack.len() > 0 {
        let f = c.stack.last();
        StepRes::Going(
            Cfg {
                pc: f.program_counter as int,
                sc: f.string_counter as int,
                st: c.st,
                exact: c.exact,
                stack: c.stack.drop_last(),
            },
        )
    } else {
        let prev_pc: int = if c.pc >= 1 { c.pc - 1 } else { 0 };
        let prev = prog[prev_pc];
        match prev.instr {
            InstrV::Jump(_) => StepRes::Done(false),
            _ => {
                if c.exact {
                    StepRes::Done(false)
                } else {
                    StepRes::Going(
                        Cfg {
                            pc: prev_pc,
                            sc: c.sc + prev.offset,
                            st: prev.next,
                            exact: c.exact,
                            stack: c.stack,
                        },
                    )
                }
            },
        }
    }
}

/// One transition of the machine on `prog` against `input`.
///
/// Execution halts with accept when the program counter or the continuation
/// state passes the end of the program; a `Match` instruction accepts iff
/// the input is fully consumed.  A consuming instruction that cannot read a
/// byte (position at or past the end) skips if its quantifier attributes
/// allow it and rejects otherwise, mirroring the `Char` rule.
pub open spec fn step(prog: Seq<ItemV>, input: Seq<u8>, c: Cfg) -> StepRes {
    if !(0 <= c.pc < prog.len()) {
        StepRes::Done(true)
    } else if c.st == prog.len() {
        StepRes::Done(true)
    } else {
        let item = prog[c.pc];
        match item.instr {
            InstrV::Char(ch) => {
                if c.sc >= input.len() {
                    StepRes::Done(false)
                } else if input[c.sc] == ch {
                    StepRes::Going(
                        Cfg {
                            pc: c.pc + 1,
                            sc: c.sc + item.offset,
                            st: item.next,
                            exact: c.exact,
                            stack: c.stack,
                        },
                    )
                } else {
                    fail_step(prog, c)
                }
            },
            InstrV::Match => StepRes::Done(c.sc == input.len()),
            InstrV::Start => StepRes::Going(
                Cfg { pc: c.pc + 1, sc: c.sc, st: c.st, exact: true, stack: c.stack },
            ),
            InstrV::Repetition(ch) => {
                if c.sc < input.len() && input[c.sc] == ch {
                    StepRes::Going(
                        Cfg {
                            pc: c.pc,
                            sc: c.sc + item.offset,
                            st: c.st,
                            exact: c.exact,
                            stack: c.stack,
                        },
                    )
                } else {
                    StepRes::Going(
                        Cfg {
                            pc: c.pc + 1,
                            sc: c.sc,
                            st: item.next,
                            exact: c.exact,
                            stack: c.stack,
                        },
                    )
                }
            },
            InstrV::OptionalChar(ch) => {
                let sc2: int = if c.sc < input.len() && input[c.sc] == ch {
                    c.sc + item.offset
                } else {
                    c.sc
                };
                StepRes::Going(
                    Cfg { pc: c.pc + 1, sc: sc2, st: item.next, exact: c.exact, stack: c.stack },
                )
            },
            InstrV::IntervalChar { ranges, can_repeat, is_optional } => {
                let matched = c.sc < input.len() && in_ranges(ranges, input[c.sc]);
                if matched {
                    if !can_repeat || is_optional {
                        StepRes::Going(
                            Cfg {
                                pc: c.pc + 1,
                                sc: c.sc + item.offset,
                                st: item.next,
                                exact: c.exact,
                                stack: c.stack,
                            },
                        )
                    } else {
                        StepRes::Going(
                            Cfg {
                                pc: c.pc,
                                sc: c.sc + item.offset,
                                st: c.st,
                                exact: c.exact,
                                stack: c.stack,
                            },
                        )
                    }
                } else if is_optional || can_repeat {
                    StepRes::Going(
                        Cfg {
                            pc: c.pc + 1,
                            sc: c.sc,
                            st: item.next,
                            exact: c.exact,
                            stack: c.stack,
                        },
                    )
                } else if c.sc >= input.len() {
                    StepRes::Done(false)
                } else {
                    fail_step(prog, c)
                }
            },
            InstrV::Branch(t) => StepRes::Going(
                Cfg {
                    pc: c.pc + 1,
                    sc: c.sc,
                    st: c.st,
                    exact: c.exact,
                    stack: c.stack.push(
                        Context { program_counter: t as usize, string_counter: c.sc as usize },
                    ),
                },
            ),
            InstrV::Jump(t) => StepRes::Going(
                Cfg { pc: t, sc: c.sc, st: c.st, exact: c.exact, stack: c.stack },
            ),
        }
    }
}

/// Iterate [`step`], spending one unit of fuel per continuing transition;
/// `None` means the run was still going when the fuel ran out.
pub open spec fn run_to(prog: Seq<ItemV>, input: Seq<u8>, c: Cfg, fuel: nat) -> Option<bool>
    decreases fuel,
{
    match step(prog, input, c) {
        StepRes::Done(b) => Some(b),
        StepRes::Going(c2) => {
            if fuel == 0 {
                None
            } else {
                run_to(prog, input, c2, (fuel - 1) as nat)
            }
        },
    }
}

/// The result of running `prog` against `input` from the initial
/// configuration under the machines' transition budget.
pub open spec fn sem(prog: Seq<ItemV>, input: Seq<u8>) -> Option<bool> {
    run_to(prog, input, init_cfg(), RUN_FUEL as nat)
}

/// Some fuel suffices for the run from `c` to finish with result `b`.
pub open spec fn yields(prog: Seq<ItemV>, input: Seq<u8>, c: Cfg, b: bool) -> bool {
    exists|n: nat| run_to(prog, input, c, n) == Some(b)
}

/// A finished run stays finished, with the same result, under more fuel.
pub proof fn lemma_run_to_mono(prog: Seq<ItemV>, input: Seq<u8>, c: Cfg, n1: nat, n2: nat)
    requires
        n1 <= n2,
        run_to(prog, input, c, n1) is Some,
    ensures
        run_to(prog, input, c, n2) == run_to(prog, input, c, n1),
    decreases n1,
{
    match step(prog, input, c) {
        StepRes::Done(_) => {},
        StepRes::Going(c2) => {
            lemma_run_to_mono(prog, input, c2, (n1 - 1) as nat, (n2 - 1) as nat);
        },
    }
}

/// The semantics is deterministic: any two finished runs from the same
/// configuration agree.  With `Machine::run`'s contract this says that the
/// match result is a function of the program and the input alone, so a run
/// over encrypted bytes agrees with a run over the bytes they encrypt, and a
/// rerun after `reset` agrees with a run of a fresh machine.
pub proof fn lemma_run_deterministic(
    prog: Seq<ItemV>,
    input: Seq<u8>,
    c: Cfg,
    b1: bool,
    b2: bool,
)
    requires
        yields(prog, input, c, b1),
        yields(prog, input, c, b2),
    ensures
        b1 == b2,
{
    let n1 = choose|n: nat| run_to(prog, input, c, n) == Some(b1);
    let n2 = choose|n: nat| run_to(prog, input, c, n) == Some(b2);
    if n1 <= n2 {
        lemma_run_to_mono(prog, input, c, n1, n2);
    } else {
        lemma_run_to_mono(prog, input, c, n2, n1);
    }
}

/// Re-running a program after `reset` gives the same result as running it on
/// a fresh machine: both runs start from [`init_cfg`], and finished runs
/// from equal configurations agree.
pub proof fn lemma_reset_rerun(
    prog: Seq<ItemV>,
    input: Seq<u8>,
    after_reset: bool,
    fresh: bool,
)
    requires
        yields(prog, input, init_cfg(), after_reset),
        yields(prog, input, init_cfg(), fresh),
    ensures
        after_reset == fresh,
{
    lemma_run_deterministic(prog, input, init_cfg(), after_reset, fresh);
}

/// Whether byte `b` lies in one of the ranges of `opts`.
fn scan_ranges(opts: &crate::program::IntervalCharOptions, b: u8) -> (m: bool)
    ensures
        m == in_ranges(opts.range@, b),
{
    let n = opts.range.len();
    let mut j: usize = 0;
    while j < n
        invariant
            n == opts.range.len(),
            j <= n,
            forall|k: int| 0 <= k < j ==> !(#[trigger] opts.range@[k]).holds(b),
        decreases n - j,
    {
        let r = opts.range[j];
        if r.start <= b && b <= r.end {
            return true;
        }
        j += 1;
    }
    false
}

/// The virtual machine over plain bytes.
pub struct Machine {
    program_counter: usize,
    string_counter: usize,
    program: Program,
    stack: Vec<Context>,
}

impl Machine {
    /// The program being interpreted, in its mathematical form.
    pub closed spec fn prog(&self) -> Seq<ItemV> {
        prog_view(self.program@)
    }

    /// Validity: the held program is well formed.
    pub closed spec fn wf(&self) -> bool {
        program_wf(prog_view(self.program@))
    }

    /// The state a machine is in when built or after `reset`.
    pub closed spec fn pristine(&self) -> bool {
        self.program_counter == 0 && self.string_counter == 0 && self.stack@.len() == 0
    }

    /// The configuration formed by the machine's fields together with the
    /// run-local continuation state and exact-match flag.
    pub closed spec fn cfg(&self, st: int, exact: bool) -> Cfg {
        Cfg {
            pc: self.program_counter as int,
            sc: self.string_counter as int,
            st: st,
            exact: exact,
            stack: self.stack@,
        }
    }

    /// Build a machine for a compiled program.
    pub fn new(program: Program) -> (r: Self)
        requires
            program_wf(prog_view(program@)),
        ensures
            r.wf(),
            r.pristine(),
            r.prog() == prog_view(program@),
    {
        Machine { program_counter: 0, string_counter: 0, program, stack: Vec::new() }
    }

    /// Restore the initial state so the same program can be re-run against a
    /// fresh input.
    pub fn reset(&mut self)
        ensures
            final(self).pristine(),
            final(self).prog() == old(self).prog(),
            final(self).wf() == old(self).wf(),
    {
        self.program_counter = 0;
        self.string_counter = 0;
        self.stack = Vec::new();
    }

    /// Recovery shared by `Char` and `IntervalChar`: pop an alternative or
    /// rewind to the previous instruction; returns true when the run must
    /// halt with reject.
    fn fail_backtrack(&mut self, state: &mut usize, exact_match: bool) -> (halt: bool)
        requires
            old(self).wf(),
            old(self).program_counter < old(self).prog().len(),
            old(self).string_counter < usize::MAX,
        ensures
            final(self).wf(),
            final(self).prog() == old(self).prog(),
            halt ==> fail_step(old(self).prog(), old(self).cfg(*old(state) as int, exact_match))
                == StepRes::Done(false),
            !halt ==> fail_step(old(self).prog(), old(self).cfg(*old(state) as int, exact_match))
                == StepRes::Going(final(self).cfg(*final(state) as int, exact_match)),
    {
        if self.stack.len() == 0 {
            let prev_pc: usize = if self.program_counter >= 1 {
                self.program_counter - 1
            } else {
                0
            };
            let prev_act: Action = self.program[prev_pc].action;
            let is_jump = match self.program[prev_pc].instruction {
                Instruction::Jump(_) => true,
                _ => false,
            };
            if is_jump {
                return true;
            }
            assert(item_wf(self.prog()[prev_pc as int], self.prog().len()));
            *state = prev_act.next;
            if prev_act.offset == 1 {
                self.string_counter = self.string_counter + 1;
            }
            self.program_counter = prev_pc;
            if exact_match {
                return true;
            }
            false
        } else {
            let f = match self.stack.pop() {
                Some(f) => f,
                None => {
                    proof {
                        assert(false);
                    }
                    Context { program_counter: 0, string_counter: 0 }
                },
            };
            self.program_counter = f.program_counter;
            self.string_counter = f.string_counter;
            false
        }
    }

    /// Interpret the program against the input's bytes.
    ///
    /// Started from the pristine state, the run returns accept exactly when
    /// the small-step semantics, under the machine's transition budget,
    /// finishes with accept.
    pub fn run(&mut self, input: String) -> (r: bool)
        requires
            old(self).wf(),
        ensures
            final(self).wf(),
            final(self).prog() == old(self).prog(),
            old(self).pristine() ==> r == (sem(old(self).prog(), text_bytes(input@)) == Some(
                true,
            )),
    {
        let bytes: &[u8] = input.as_str().as_bytes();
        let mut state: usize = 0;
        let mut exact_match: bool = false;
        let mut fuel: u64 = RUN_FUEL;
        let ghost prog = prog_view(self.program@);
        let ghost inp = text_bytes(input@);
        let ghost c0 = self.cfg(0, false);
        proof {
            assert(bytes@ == inp);
            if old(self).pristine() {
                assert(c0.stack =~= init_cfg().stack);
                assert(c0 == init_cfg());
            }
        }

        while self.program_counter < self.program.len()
            invariant
                self.wf(),
                prog_view(self.program@) == prog,
                prog == prog_view(old(self).program@),
                bytes@ == inp,
                inp == text_bytes(input@),
                old(self).pristine() ==> c0 == init_cfg(),
                run_to(prog, inp, c0, RUN_FUEL as nat) == run_to(
                    prog,
                    inp,
                    self.cfg(state as int, exact_match),
                    fuel as nat,
                ),
            decreases fuel,
        {
            let ghost c1 = self.cfg(state as int, exact_match);
            if state == self.program.len() {
                proof {
                    assert(step(prog, inp, c1) == StepRes::Done(true));
                }
                return true;
            }
            let pc = self.program_counter;
            let act: Action = self.program[pc].action;
            proof {
                assert(item_wf(prog[pc as int], prog.len()));
            }
            match &self.program[pc].instruction {
                Instruction::Char(ch) => {
                    let ch: u8 = *ch;
                    if self.string_counter >= bytes.len() {
                        proof {
                            assert(step(prog, inp, c1) == StepRes::Done(false));
                        }
                        return false;
                    }
                    if bytes[self.string_counter] == ch {
                        state = act.next;
                        if act.offset == 1 {
                            self.string_counter = self.string_counter + 1;
                        }
                        self.program_counter = pc + 1;
                        proof {
                            assert(step(prog, inp, c1) == StepRes::Going(
                                self.cfg(state as int, exact_match),
                            ));
                        }
                    } else {
                        if self.fail_backtrack(&mut state, exact_match) {
                            proof {
                                assert(step(prog, inp, c1) == StepRes::Done(false));
                            }
                            return false;
                        }
                        proof {
                            assert(step(prog, inp, c1) == StepRes::Going(
                                self.cfg(state as int, exact_match),
                            ));
                        }
                    }
                },
                Instruction::Match => {
                    let r = self.string_counter == bytes.len();
                    proof {
                        assert(step(prog, inp, c1) == StepRes::Done(r));
                    }
                    return r;
                },
                Instruction::Start => {
                    self.program_counter = pc + 1;
                    exact_match = true;
                    proof {
                        assert(step(prog, inp, c1) == StepRes::Going(
                            self.cfg(state as int, exact_match),
                        ));
                    }
                },
                Instruction::Repetition(ch) => {
                    let ch: u8 = *ch;
                    let eq = self.string_counter < bytes.len() && bytes[self.string_counter] == ch;
                    if eq {
                        if act.offset == 1 {
                            self.string_counter = self.string_counter + 1;
                        }
                    } else {
                        state = act.next;
                        self.program_counter = pc + 1;
                    }
                    proof {
                        assert(step(prog, inp, c1) == StepRes::Going(
                            self.cfg(state as int, exact_match),
                        ));
                    }
                },
                Instruction::OptionalChar(ch) => {
                    let ch: u8 = *ch;
                    let eq = self.string_counter < bytes.len() && bytes[self.string_counter] == ch;
                    if eq {
                        if act.offset == 1 {
                            self.string_counter = self.string_counter + 1;
                        }
                    }
                    state = act.next;
                    self.program_counter = pc + 1;
                    proof {
                        assert(step(prog, inp, c1) == StepRes::Going(
                            self.cfg(state as int, exact_match),
                        ));
                    }
                },
                Instruction::IntervalChar(opts) => {
                    let can_repeat = opts.can_repeat;
                    let is_optional = opts.is_optional;
                    let matched = if self.string_counter < bytes.len() {
                        scan_ranges(opts, bytes[self.string_counter])
                    } else {
                        false
                    };
                    if matched {
                        if act.offset == 1 {
                            self.string_counter = self.string_counter + 1;
                        }
                        if !can_repeat || is_optional {
                            state = act.next;
                            self.program_counter = pc + 1;
                        }
                        proof {
                            assert(step(prog, inp, c1) == StepRes::Going(
                                self.cfg(state as int, exact_match),
                            ));
                        }
                    } else if is_optional || can_repeat {
                        state = act.next;
                        self.program_counter = pc + 1;
                        proof {
                            assert(step(prog, inp, c1) == StepRes::Going(
                                self.cfg(state as int, exact_match),
                            ));
                        }
                    } else if self.string_counter >= bytes.len() {
                        proof {
                            assert(step(prog, inp, c1) == StepRes::Done(false));
                        }
                        return false;
                    } else {
                        if self.fail_backtrack(&mut state, exact_match) {
                            proof {
                                assert(step(prog, inp, c1) == StepRes::Done(false));
                            }
                            return false;
                        }
                        proof {
                            assert(step(prog, inp, c1) == StepRes::Going(
                                self.cfg(state as int, exact_match),
                            ));
                        }
                    }
                },
                Instruction::Branch(t) => {
                    let t: usize = *t;
                    self.stack.push(
                        Context { program_counter: t, string_counter: self.string_counter },
                    );
                    self.program_counter = pc + 1;
                    proof {
                        assert(step(prog, inp, c1) == StepRes::Going(
                            self.cfg(state as int, exact_match),
                        ));
                    }
                },
                Instruction::Jump(t) => {
                    let t: usize = *t;
                    self.program_counter = t;
                    proof {
                        assert(step(prog, inp, c1) == StepRes::Going(
                            self.cfg(state as int, exact_match),
                        ));
                    }
                },
            }
            if fuel == 0 {
                return false;
            }
            fuel = fuel - 1;
        }
        proof {
            let c1 = self.cfg(state as int, exact_match);
            assert(step(prog, inp, c1) == StepRes::Done(true));
        }
        true
    }
}

} // verus!
