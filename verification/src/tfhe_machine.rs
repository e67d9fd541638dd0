//! The backtracking virtual machine over encrypted bytes.
//!
//! The machine holds an encrypted program and walks it against a vector of
//! encrypted characters.  Every character test is one homomorphic
//! comparison followed by one call of the decision oracle
//! ([`CheckerCipherTrait`]), the only place where plaintext control flow
//! depends on ciphertext contents.  The machine is verified against the
//! same small-step semantics as the plaintext machine, over the bytes the
//! ciphertexts encrypt: a run returns exactly
//! `sem(program view, input bytes) == Some(true)`, so it provably agrees
//! with a plaintext run on the same program and bytes.

use vstd::prelude::*;

use crate::encoding::EncodedCipherTrait;
use crate::fhe::{ge_one_limb, mul_limb, LimbCt, ServerKeyHandle};
use crate::machine::{fail_step, init_cfg, run_to, sem, step, Cfg, Context, StepRes, RUN_FUEL};
use crate::program::{
    cipher_instr_wf, cipher_prog_view, cipher_prog_wf, cipher_ranges_view, in_ranges, item_wf,
    program_wf, Action, CipherInstruction, CipherIntervalCharOptions, CipherProgram, ItemV,
};

verus! {

/// The decision oracle: the one capability that reduces a boolean
/// ciphertext to a plaintext boolean.  In the canonical deployment the
/// implementor holds the client key and decrypts.  An implementation
/// outside this library is trusted to decode honestly: the result is true
/// exactly when the ciphertext holds a nonzero value.
pub trait CheckerCipherTrait {
    fn is_true(&self, ct_result: &LimbCt) -> (r: bool)
        ensures
            r == (ct_result.val() != 0),
    ;
}

/// The bytes a vector of encrypted characters encrypts.
pub open spec fn bytes_of_cts<T: EncodedCipherTrait>(s: Seq<T>) -> Seq<u8> {
    s.map_values(|t: T| t.byte_val() as u8)
}

/// The virtual machine over encrypted bytes.
pub struct TFHEMachine<T> {
    program_counter: usize,
    string_counter: usize,
    program: CipherProgram<T>,
    stack: Vec<Context>,
    server_key: ServerKeyHandle,
}

impl<T: EncodedCipherTrait> TFHEMachine<T> {
    /// The identity of the key pair the machine evaluates under.
    pub closed spec fn key_id(&self) -> int {
        self.server_key.id()
    }

    /// The server key's message space matches the encoding's limb space.
    pub closed spec fn keys_ok(&self) -> bool {
        self.server_key.space() == T::space_needed()
    }

    /// The program being interpreted, in its mathematical form: the
    /// plaintext program its ciphertexts stand for.
    pub closed spec fn prog(&self) -> Seq<ItemV> {
        cipher_prog_view(self.program@)
    }

    /// Validity: the program is well formed, all its ciphertexts belong to
    /// the machine's key pair, and the key fits the encoding.
    pub closed spec fn wf(&self) -> bool {
        &&& program_wf(cipher_prog_view(self.program@))
        &&& cipher_prog_wf(self.program@, self.server_key.id())
        &&& self.keys_ok()
    }

    /// The state a machine is in when built or after `reset`.
    pub closed spec fn pristine(&self) -> bool {
        self.program_counter == 0 && self.string_counter == 0 && self.stack@.len() == 0
    }

    /// The configuration formed by the machine's fields together with the
    /// run-local continuation state and exact-match flag.
    pub closed spec fn cfg(&self, st: int, exact: bool) -> Cfg {
        Cfg {
            pc: self.program_counter as int,
            sc: self.string_counter as int,
            st: st,
            exact: exact,
            stack: self.stack@,
        }
    }

    /// Build a machine for an encrypted program and the matching server key.
    pub fn new(program: CipherProgram<T>, server_key: ServerKeyHandle) -> (r: Self)
        requires
            program_wf(cipher_prog_view(program@)),
            cipher_prog_wf(program@, server_key.id()),
            server_key.space() == T::space_needed(),
        ensures
            r.wf(),
            r.pristine(),
            r.prog() == cipher_prog_view(program@),
            r.key_id() == server_key.id(),
    {
        TFHEMachine {
            program_counter: 0,
            string_counter: 0,
            program,
            stack: Vec::new(),
            server_key,
        }
    }

    /// Restore the initial state so the same encrypted program can be
    /// re-run against a fresh input.
    pub fn reset(&mut self)
        ensures
            final(self).pristine(),
            final(self).prog() == old(self).prog(),
            final(self).wf() == old(self).wf(),
            final(self).key_id() == old(self).key_id(),
    {
        self.program_counter = 0;
        self.string_counter = 0;
        self.stack = Vec::new();
    }

    /// One homomorphic equality test reduced to a plaintext boolean by one
    /// oracle call: whether the two ciphertexts encrypt the same byte.
    pub fn ct_are_equal<C: CheckerCipherTrait>(
        &self,
        checker: &C,
        ct_left: &T,
        ct_right: &T,
    ) -> (r: bool)
        requires
            self.keys_ok(),
            ct_left.wf(),
            ct_right.wf(),
            ct_left.key_id() == self.key_id(),
            ct_right.key_id() == self.key_id(),
        ensures
            r == (ct_left.byte_val() == ct_right.byte_val()),
    {
        let ct_result = ct_left.equal(&self.server_key, ct_right);
        checker.is_true(&ct_result)
    }

    /// One homomorphic range test (two comparisons folded by a homomorphic
    /// multiply) reduced by one oracle call: whether the encrypted byte
    /// lies in the inclusive encrypted range.  Each comparison's result is
    /// clamped to a fresh boolean of degree 1 before the multiply, so the
    /// multiply's packed plaintext stays within the message-carry domain.
    pub fn ct_in_range<C: CheckerCipherTrait>(
        &self,
        checker: &C,
        ct_value: &T,
        ct_start: &T,
        ct_end: &T,
    ) -> (r: bool)
        requires
            self.keys_ok(),
            ct_value.wf(),
            ct_start.wf(),
            ct_end.wf(),
            ct_value.key_id() == self.key_id(),
            ct_start.key_id() == self.key_id(),
            ct_end.key_id() == self.key_id(),
        ensures
            r == (ct_start.byte_val() <= ct_value.byte_val() && ct_value.byte_val()
                <= ct_end.byte_val()),
    {
        proof {
            T::lemma_space_needed();
            let s = self.server_key.space();
            assert(3 < s * s) by (nonlinear_arith)
                requires
                    s >= 2,
            ;
        }
        let ct_greater = ct_value.greater_or_equal(&self.server_key, ct_start);
        let ct_greater = ge_one_limb(&self.server_key, &ct_greater);
        let ct_less = ct_value.less_or_equal(&self.server_key, ct_end);
        let ct_less = ge_one_limb(&self.server_key, &ct_less);
        let ct_result = mul_limb(&self.server_key, &ct_less, &ct_greater);
        checker.is_true(&ct_result)
    }

    /// Whether the encrypted byte lies in one of the class's encrypted
    /// ranges, scanned in order and stopped at the first hit.
    fn scan_cipher_ranges<C: CheckerCipherTrait>(
        &self,
        checker: &C,
        opts: &CipherIntervalCharOptions<T>,
        ct_value: &T,
    ) -> (m: bool)
        requires
            self.keys_ok(),
            ct_value.wf(),
            ct_value.key_id() == self.key_id(),
            forall|k: int|
                0 <= k < opts.range@.len() ==> {
                    &&& (#[trigger] opts.range@[k]).start.wf()
                    &&& opts.range@[k].end.wf()
                    &&& opts.range@[k].start.key_id() == self.key_id()
                    &&& opts.range@[k].end.key_id() == self.key_id()
                },
        ensures
            m == in_ranges(cipher_ranges_view(opts.range@), ct_value.byte_val() as u8),
    {
        let ghost rv = cipher_ranges_view(opts.range@);
        let ghost b = ct_value.byte_val() as u8;
        let n = opts.range.len();
        let mut j: usize = 0;
        while j < n
            invariant
                n == opts.range.len(),
                j <= n,
                rv == cipher_ranges_view(opts.range@),
                b == ct_value.byte_val() as u8,
                self.keys_ok(),
                ct_value.wf(),
                ct_value.key_id() == self.key_id(),
                forall|k: int|
                    0 <= k < opts.range@.len() ==> {
                        &&& (#[trigger] opts.range@[k]).start.wf()
                        &&& opts.range@[k].end.wf()
                        &&& opts.range@[k].start.key_id() == self.key_id()
                        &&& opts.range@[k].end.key_id() == self.key_id()
                    },
                forall|k: int| 0 <= k < j ==> !(#[trigger] rv[k]).holds(b),
            decreases n - j,
        {
            let hit = self.ct_in_range(
                checker,
                ct_value,
                &opts.range[j].start,
                &opts.range[j].end,
            );
            proof {
                ct_value.lemma_wf_byte();
                opts.range@[j as int].start.lemma_wf_byte();
                opts.range@[j as int].end.lemma_wf_byte();
            }
            if hit {
                proof {
                    assert(rv[j as int].holds(b));
                }
                return true;
            }
            j += 1;
        }
        false
    }

    /// Interpret the encrypted program against an encrypted input.
    ///
    /// Started from the pristine state, the run returns accept exactly when
    /// the small-step semantics — on the plaintext program this encrypted
    /// program stands for, against the bytes the input encrypts — finishes
    /// with accept under the machine's transition budget.  It therefore
    /// returns exactly what a plaintext run on those bytes returns.
    pub fn run<C: CheckerCipherTrait>(&mut self, input: Vec<T>, checker: &C) -> (r: bool)
        requires
            old(self).wf(),
            forall|i: int|
                0 <= i < input@.len() ==> (#[trigger] input@[i]).wf() && input@[i].key_id() == old(
                    self,
                ).key_id(),
        ensures
            final(self).wf(),
            final(self).prog() == old(self).prog(),
            final(self).key_id() == old(self).key_id(),
            old(self).pristine() ==> r == (sem(old(self).prog(), bytes_of_cts(input@)) == Some(
                true,
            )),
    {
        let mut state: usize = 0;
        let mut exact_match: bool = false;
        let mut fuel: u64 = RUN_FUEL;
        let ghost prog = cipher_prog_view(self.program@);
        let ghost inp = bytes_of_cts(input@);
        let ghost c0 = self.cfg(0, false);
        proof {
            if old(self).pristine() {
                assert(c0.stack =~= init_cfg().stack);
                assert(c0 == init_cfg());
            }
        }

        while self.program_counter < self.program.len()
            invariant
                self.wf(),
                cipher_prog_view(self.program@) == prog,
                self.program@ == old(self).program@,
                self.key_id() == old(self).key_id(),
                inp == bytes_of_cts(input@),
                forall|i: int|
                    0 <= i < input@.len() ==> (#[trigger] input@[i]).wf() && input@[i].key_id()
                        == old(self).key_id(),
                old(self).pristine() ==> c0 == init_cfg(),
                run_to(prog, inp, c0, RUN_FUEL as nat) == run_to(
                    prog,
                    inp,
                    self.cfg(state as int, exact_match),
                    fuel as nat,
                ),
            decreases fuel,
        {
            let ghost c1 = self.cfg(state as int, exact_match);
            if state == self.program.len() {
                proof {
                    assert(step(prog, inp, c1) == StepRes::Done(true));
                }
                return true;
            }
            let pc = self.program_counter;
            let act: Action = self.program[pc].action;
            proof {
                assert(item_wf(prog[pc as int], prog.len()));
                assert(cipher_instr_wf(self.program@[pc as int].instruction, self.key_id()));
            }
            match &self.program[pc].instruction {
                CipherInstruction::CipherChar(ct) => {
                    if self.string_counter >= input.len() {
                        proof {
                            assert(step(prog, inp, c1) == StepRes::Done(false));
                        }
                        return false;
                    }
                    let eq = self.ct_are_equal(checker, &input[self.string_counter], ct);
                    proof {
                        input@[self.string_counter as int].lemma_wf_byte();
                        ct.lemma_wf_byte();
                        assert(eq == (inp[c1.sc] == prog[c1.pc].instr->Char_0));
                    }
                    if eq {
                        state = act.next;
                        if act.offset == 1 {
                            self.string_counter = self.string_counter + 1;
                        }
                        self.program_counter = pc + 1;
                        proof {
                            assert(step(prog, inp, c1) == StepRes::Going(
                                self.cfg(state as int, exact_match),
                            ));
                        }
                    } else {
                        if self.fail_backtrack(&mut state, exact_match) {
                            proof {
                                assert(step(prog, inp, c1) == StepRes::Done(false));
                            }
                            return false;
                        }
                        proof {
                            assert(step(prog, inp, c1) == StepRes::Going(
                                self.cfg(state as int, exact_match),
                            ));
                        }
                    }
                },
                CipherInstruction::Match => {
                    let r = self.string_counter == input.len();
                    proof {
                        assert(step(prog, inp, c1) == StepRes::Done(r));
                    }
                    return r;
                },
                CipherInstruction::Start => {
                    self.program_counter = pc + 1;
                    exact_match = true;
                    proof {
                        assert(step(prog, inp, c1) == StepRes::Going(
                            self.cfg(state as int, exact_match),
                        ));
                    }
                },
                CipherInstruction::CipherRepetition(ct) => {
                    let eq = if self.string_counter < input.len() {
                        let e = self.ct_are_equal(checker, &input[self.string_counter], ct);
                        proof {
                            input@[self.string_counter as int].lemma_wf_byte();
                            ct.lemma_wf_byte();
                        }
                        e
                    } else {
                        false
                    };
                    if eq {
                        if act.offset == 1 {
                            self.string_counter = self.string_counter + 1;
                        }
                    } else {
                        state = act.next;
                        self.program_counter = pc + 1;
                    }
                    proof {
                        assert(step(prog, inp, c1) == StepRes::Going(
                            self.cfg(state as int, exact_match),
                        ));
                    }
                },
                CipherInstruction::CipherOptionalChar(ct) => {
                    let eq = if self.string_counter < input.len() {
                        let e = self.ct_are_equal(checker, &input[self.string_counter], ct);
                        proof {
                            input@[self.string_counter as int].lemma_wf_byte();
                            ct.lemma_wf_byte();
                        }
                        e
                    } else {
                        false
                    };
                    if eq {
                        if act.offset == 1 {
                            self.string_counter = self.string_counter + 1;
                        }
                    }
                    state = act.next;
                    self.program_counter = pc + 1;
                    proof {
                        assert(step(prog, inp, c1) == StepRes::Going(
                            self.cfg(state as int, exact_match),
                        ));
                    }
                },
                CipherInstruction::CipherIntervalChar(opts) => {
                    let can_repeat = opts.can_repeat;
                    let is_optional = opts.is_optional;
                    let matched = if self.string_counter < input.len() {
                        let m = self.scan_cipher_ranges(checker, opts, &input[self.string_counter]);
                        proof {
                            input@[self.string_counter as int].lemma_wf_byte();
                        }
                        m
                    } else {
                        false
                    };
                    if matched {
                        if act.offset == 1 {
                            self.string_counter = self.string_counter + 1;
                        }
                        if !can_repeat || is_optional {
                            state = act.next;
                            self.program_counter = pc + 1;
                        }
                        proof {
                            assert(step(prog, inp, c1) == StepRes::Going(
                                self.cfg(state as int, exact_match),
                            ));
                        }
                    } else if is_optional || can_repeat {
                        state = act.next;
                        self.program_counter = pc + 1;
                        proof {
                            assert(step(prog, inp, c1) == StepRes::Going(
                                self.cfg(state as int, exact_match),
                            ));
                        }
                    } else if self.string_counter >= input.len() {
                        proof {
                            assert(step(prog, inp, c1) == StepRes::Done(false));
                        }
                        return false;
                    } else {
                        if self.fail_backtrack(&mut state, exact_match) {
                            proof {
                                assert(step(prog, inp, c1) == StepRes::Done(false));
                            }
                            return false;
                        }
                        proof {
                            assert(step(prog, inp, c1) == StepRes::Going(
                                self.cfg(state as int, exact_match),
                            ));
                        }
                    }
                },
                CipherInstruction::Branch(t) => {
                    let t: usize = *t;
                    self.stack.push(
                        Context { program_counter: t, string_counter: self.string_counter },
                    );
                    self.program_counter = pc + 1;
                    proof {
                        assert(step(prog, inp, c1) == StepRes::Going(
                            self.cfg(state as int, exact_match),
                        ));
                    }
                },
                CipherInstruction::Jump(t) => {
                    let t: usize = *t;
                    self.program_counter = t;
                    proof {
                        assert(step(prog, inp, c1) == StepRes::Going(
                            self.cfg(state as int, exact_match),
                        ));
                    }
                },
            }
            if fuel == 0 {
                return false;
            }
            fuel = fuel - 1;
        }
        proof {
            let c1 = self.cfg(state as int, exact_match);
            assert(step(prog, inp, c1) == StepRes::Done(true));
        }
        true
    }

    /// Recovery shared by the exact consuming instructions: pop an
    /// alternative or rewind to the previous instruction; returns true when
    /// the run must halt with reject.
    fn fail_backtrack(&mut self, state: &mut usize, exact_match: bool) -> (halt: bool)
        requires
            old(self).wf(),
            old(self).program_counter < old(self).prog().len(),
            old(self).string_counter < usize::MAX,
        ensures
            final(self).wf(),
            final(self).prog() == old(self).prog(),
            final(self).program@ == old(self).program@,
            final(self).key_id() == old(self).key_id(),
            halt ==> fail_step(old(self).prog(), old(self).cfg(*old(state) as int, exact_match))
                == StepRes::Done(false),
            !halt ==> fail_step(old(self).prog(), old(self).cfg(*old(state) as int, exact_match))
                == StepRes::Going(final(self).cfg(*final(state) as int, exact_match)),
    {
        if self.stack.len() == 0 {
            let prev_pc: usize = if self.program_counter >= 1 {
                self.program_counter - 1
            } else {
                0
            };
            let prev_act: Action = self.program[prev_pc].action;
            let is_jump = match self.program[prev_pc].instruction {
                CipherInstruction::Jump(_) => true,
                _ => false,
            };
            if is_jump {
                return true;
            }
            assert(item_wf(self.prog()[prev_pc as int], self.prog().len()));
            *state = prev_act.next;
            if prev_act.offset == 1 {
                self.string_counter = self.string_counter + 1;
            }
            self.program_counter = prev_pc;
            if exact_match {
                return true;
            }
            false
        } else {
            let f = match self.stack.pop() {
                Some(f) => f,
                None => {
                    proof {
                        assert(false);
                    }
                    Context { program_counter: 0, string_counter: 0 }
                },
            };
            self.program_counter = f.program_counter;
            self.string_counter = f.string_counter;
            false
        }
    }
}

} // verus!
