//! Proved laws of the matcher on anchored patterns.
//!
//! Three start-anchored pattern families compile to programs with no
//! branches, and their whole languages are pinned down here.  The bounded
//! quantifier `^a{m,n}$` — an anchor latch, `m` exact consumes of `a`,
//! `n-m` optional consumes, an end-of-input check — accepts exactly the
//! inputs made of `a` alone whose length lies in `[m, n]`.  The literal
//! word `^w$` accepts exactly the input `w` itself: the anchors make the
//! match exact.  The prefix `^w` accepts exactly the inputs that begin
//! with `w`: a match that does not begin at position 0 is rejected rather
//! than retried.  Every such run finishes within a stated transition
//! bound, so each law also holds of what the machines return under their
//! budget.

use vstd::prelude::*;

use crate::compiler::{emit_len, emit_spec, lemma_emit_spec_len, AstV, AtomV, RepKind};
use crate::machine::{
    init_cfg, lemma_run_deterministic, lemma_run_to_mono, run_to, sem, step, yields, Cfg, StepRes,
    RUN_FUEL,
};
use crate::program::{InstrV, ItemV};

verus! {

/// The syntax tree of the pattern `^a{m,n}$`.
pub open spec fn counted_run_ast(a: u8, m: u32, n: u32) -> AstV {
    AstV::Concat(
        Box::new(AstV::Start),
        Box::new(
            AstV::Concat(
                Box::new(AstV::Rep(RepKind::Bounded(m, n), AtomV::Byte(a))),
                Box::new(AstV::End),
            ),
        ),
    )
}

/// The compiled form of `^a{m,n}$`.
pub open spec fn counted_run_prog(a: u8, m: u32, n: u32) -> Seq<ItemV> {
    emit_spec(counted_run_ast(a, m, n), 0)
}

/// Whether every byte of the input is `a`.
pub open spec fn all_of(input: Seq<u8>, a: u8) -> bool {
    forall|i: int| 0 <= i < input.len() ==> input[i] == a
}

/// The language of `^a{m,n}$`: runs of `a` whose length lies in `[m, n]`.
pub open spec fn counted_run_accepts(a: u8, m: u32, n: u32, input: Seq<u8>) -> bool {
    all_of(input, a) && m <= input.len() <= n
}

/// What stands at each index of the compiled `^a{m,n}$`.
proof fn lemma_counted_prog_shape(a: u8, m: u32, n: u32)
    requires
        m <= n,
    ensures
        counted_run_prog(a, m, n).len() == n + 2,
        counted_run_prog(a, m, n)[0] == (ItemV { instr: InstrV::Start, next: 1, offset: 0 }),
        forall|i: int|
            0 <= i < m ==> #[trigger] counted_run_prog(a, m, n)[1 + i] == (ItemV {
                instr: InstrV::Char(a),
                next: 2 + i,
                offset: 1,
            }),
        forall|i: int|
            m <= i < n ==> #[trigger] counted_run_prog(a, m, n)[1 + i] == (ItemV {
                instr: InstrV::OptionalChar(a),
                next: 2 + i,
                offset: 1,
            }),
        counted_run_prog(a, m, n)[n + 1] == (ItemV { instr: InstrV::Match, next: n + 2, offset: 0 }),
{
    let rep = AstV::Rep(RepKind::Bounded(m, n), AtomV::Byte(a));
    let tail = AstV::Concat(Box::new(rep), Box::new(AstV::End));
    lemma_emit_spec_len(counted_run_ast(a, m, n), 0);
    lemma_emit_spec_len(tail, 1);
    lemma_emit_spec_len(rep, 1);
    lemma_emit_spec_len(AstV::End, 1 + emit_len(rep) as int);
    assert(emit_len(rep) == n);
    assert(counted_run_prog(a, m, n) == emit_spec(AstV::Start, 0) + (emit_spec(rep, 1)
        + emit_spec(AstV::End, 1 + n)));
}

/// The optional phase: at `pc = 1 + j` with `m <= j <= n`, after consuming
/// `s` leading `a`s (and stuck at the first non-`a` byte if consumption
/// stopped before the phase did), the run finishes with the language's
/// verdict.
proof fn lemma_counted_opts(a: u8, m: u32, n: u32, input: Seq<u8>, j: int, s: int, stt: int)
    requires
        m <= n,
        m <= j <= n,
        m <= s <= j,
        s <= input.len(),
        0 <= stt <= n + 1,
        forall|i: int| 0 <= i < s ==> input[i] == a,
        s < j ==> (s == input.len() || input[s as int] != a),
    ensures
        run_to(
            counted_run_prog(a, m, n),
            input,
            Cfg { pc: 1 + j, sc: s, st: stt, exact: true, stack: Seq::empty() },
            (n + 1 - j) as nat,
        ) == Some(counted_run_accepts(a, m, n, input)),
    decreases n - j,
{
    lemma_counted_prog_shape(a, m, n);
    let prog = counted_run_prog(a, m, n);
    let e = counted_run_accepts(a, m, n, input);
    let c = Cfg { pc: 1 + j, sc: s, st: stt, exact: true, stack: Seq::empty() };
    if j == n {
        // `Match`: accept iff the whole input was consumed.
        assert(step(prog, input, c) == StepRes::Done(s == input.len()));
        if s == input.len() {
            assert(e);
        } else {
            if s < j {
                assert(input[s as int] != a && s < input.len());
                assert(!all_of(input, a));
            } else {
                assert(s == n && input.len() > n);
            }
            assert(!e);
        }
        assert(run_to(prog, input, c, (n + 1 - j) as nat) == Some(e));
    } else {
        // `OptionalChar(a)`: consume while the next byte is `a`.
        let consume = s < input.len() && input[s as int] == a;
        let s2: int = if consume {
            s + 1
        } else {
            s
        };
        let c2 = Cfg { pc: 1 + (j + 1), sc: s2, st: j + 2, exact: true, stack: Seq::empty() };
        assert(step(prog, input, c) == StepRes::Going(c2));
        lemma_counted_opts(a, m, n, input, j + 1, s2, j + 2);
        assert(run_to(prog, input, c, (n + 1 - j) as nat) == run_to(
            prog,
            input,
            c2,
            (n - j) as nat,
        ));
    }
}

/// The exact phase: at `pc = 1 + j` with `j <= m`, after consuming `j`
/// leading `a`s, the run finishes with the language's verdict.
proof fn lemma_counted_chars(a: u8, m: u32, n: u32, input: Seq<u8>, j: int, stt: int)
    requires
        m <= n,
        0 <= j <= m,
        0 <= stt <= n + 1,
        j <= input.len(),
        forall|i: int| 0 <= i < j ==> input[i] == a,
    ensures
        run_to(
            counted_run_prog(a, m, n),
            input,
            Cfg { pc: 1 + j, sc: j, st: stt, exact: true, stack: Seq::empty() },
            (n + 1 - j) as nat,
        ) == Some(counted_run_accepts(a, m, n, input)),
    decreases m - j,
{
    lemma_counted_prog_shape(a, m, n);
    let prog = counted_run_prog(a, m, n);
    let e = counted_run_accepts(a, m, n, input);
    let c = Cfg { pc: 1 + j, sc: j, st: stt, exact: true, stack: Seq::empty() };
    if j == m {
        lemma_counted_opts(a, m, n, input, j, j, stt);
    } else {
        // `Char(a)`: the byte must be there and must be `a`.
        if j >= input.len() {
            assert(step(prog, input, c) == StepRes::Done(false));
            assert(input.len() < m);
            assert(!e);
        } else if input[j] == a {
            let c2 = Cfg { pc: 1 + (j + 1), sc: j + 1, st: j + 2, exact: true, stack: Seq::empty() };
            assert(step(prog, input, c) == StepRes::Going(c2));
            lemma_counted_chars(a, m, n, input, j + 1, j + 2);
            assert(run_to(prog, input, c, (n + 1 - j) as nat) == run_to(
                prog,
                input,
                c2,
                (n - j) as nat,
            ));
        } else {
            // Mismatch with an empty stack in exact-match mode: reject.
            assert(step(prog, input, c) == StepRes::Done(false));
            assert(!all_of(input, a));
        }
    }
}

/// Quantifier counts, the termination half: the compiled `^a{m,n}$` always
/// finishes, within `n + 2` transitions, with the language's verdict.
pub proof fn lemma_quantifier_counts_finishes(a: u8, m: u32, n: u32, input: Seq<u8>)
    requires
        m <= n,
    ensures
        run_to(counted_run_prog(a, m, n), input, init_cfg(), (n + 2) as nat) == Some(
            counted_run_accepts(a, m, n, input),
        ),
{
    lemma_counted_prog_shape(a, m, n);
    let prog = counted_run_prog(a, m, n);
    let c1 = Cfg { pc: 1, sc: 0, st: 0, exact: true, stack: Seq::empty() };
    assert(step(prog, input, init_cfg()) == StepRes::Going(c1)) by {
        assert(init_cfg().stack =~= Seq::<crate::machine::Context>::empty());
        assert(c1.stack =~= Seq::<crate::machine::Context>::empty());
    }
    lemma_counted_chars(a, m, n, input, 0, 0);
    assert(run_to(prog, input, init_cfg(), (n + 2) as nat) == run_to(
        prog,
        input,
        c1,
        (n + 1) as nat,
    ));
}

/// Quantifier counts under the machines' budget: the semantics of the
/// compiled `^a{m,n}$` is the language's verdict, so a pristine run of
/// either machine returns accept exactly on runs of `a` of length in
/// `[m, n]`.
pub proof fn lemma_quantifier_counts_sem(a: u8, m: u32, n: u32, input: Seq<u8>)
    requires
        m <= n,
    ensures
        sem(counted_run_prog(a, m, n), input) == Some(counted_run_accepts(a, m, n, input)),
{
    lemma_quantifier_counts_finishes(a, m, n, input);
    lemma_run_to_mono(
        counted_run_prog(a, m, n),
        input,
        init_cfg(),
        (n + 2) as nat,
        RUN_FUEL as nat,
    );
}

/// Quantifier counts: a finished run of the compiled `^a{m,n}$` accepts
/// exactly the inputs that are runs of `a` whose length lies in `[m, n]`.
pub proof fn lemma_quantifier_counts(a: u8, m: u32, n: u32, input: Seq<u8>, b: bool)
    requires
        m <= n,
        yields(counted_run_prog(a, m, n), input, init_cfg(), b),
    ensures
        b == counted_run_accepts(a, m, n, input),
{
    lemma_quantifier_counts_finishes(a, m, n, input);
    let e = counted_run_accepts(a, m, n, input);
    assert(yields(counted_run_prog(a, m, n), input, init_cfg(), e));
    lemma_run_deterministic(counted_run_prog(a, m, n), input, init_cfg(), b, e);
}

/// The syntax tree of the literal word `w` followed by the `$` anchor, as
/// the compiler nests it: each byte in front of the rest, the anchor last.
pub open spec fn word_tail_ast(w: Seq<u8>) -> AstV
    decreases w.len(),
{
    if w.len() == 0 {
        AstV::End
    } else {
        AstV::Concat(Box::new(AstV::Byte(w[0])), Box::new(word_tail_ast(w.drop_first())))
    }
}

/// The syntax tree of the pattern `^w$` for a literal word `w`.
pub open spec fn word_exact_ast(w: Seq<u8>) -> AstV {
    AstV::Concat(Box::new(AstV::Start), Box::new(word_tail_ast(w)))
}

/// The compiled form of `^w$`.
pub open spec fn word_exact_prog(w: Seq<u8>) -> Seq<ItemV> {
    emit_spec(word_exact_ast(w), 0)
}

/// What the word's tail emits: one exact consume per byte, then `Match`.
proof fn lemma_word_tail_shape(w: Seq<u8>, base: int)
    ensures
        emit_spec(word_tail_ast(w), base).len() == w.len() + 1,
        emit_len(word_tail_ast(w)) == w.len() + 1,
        forall|i: int|
            0 <= i < w.len() ==> #[trigger] emit_spec(word_tail_ast(w), base)[i] == (ItemV {
                instr: InstrV::Char(w[i]),
                next: base + i + 1,
                offset: 1,
            }),
        emit_spec(word_tail_ast(w), base)[w.len() as int] == (ItemV {
            instr: InstrV::Match,
            next: base + w.len() + 1,
            offset: 0,
        }),
    decreases w.len(),
{
    lemma_emit_spec_len(word_tail_ast(w), base);
    if w.len() > 0 {
        lemma_word_tail_shape(w.drop_first(), base + 1);
        lemma_emit_spec_len(word_tail_ast(w.drop_first()), base + 1);
        let s = emit_spec(word_tail_ast(w), base);
        let rest = emit_spec(word_tail_ast(w.drop_first()), base + 1);
        assert(s == emit_spec(AstV::Byte(w[0]), base) + rest);
        assert forall|i: int|
            0 <= i < w.len() implies #[trigger] s[i] == (ItemV {
                instr: InstrV::Char(w[i]),
                next: base + i + 1,
                offset: 1,
            }) by {
            if i > 0 {
                assert(s[i] == rest[i - 1]);
                assert(w.drop_first()[i - 1] == w[i]);
            }
        }
        assert(s[w.len() as int] == rest[w.len() - 1]);
    }
}

/// What stands at each index of the compiled `^w$`.
proof fn lemma_word_prog_shape(w: Seq<u8>)
    ensures
        word_exact_prog(w).len() == w.len() + 2,
        word_exact_prog(w)[0] == (ItemV { instr: InstrV::Start, next: 1, offset: 0 }),
        forall|i: int|
            0 <= i < w.len() ==> #[trigger] word_exact_prog(w)[1 + i] == (ItemV {
                instr: InstrV::Char(w[i]),
                next: 2 + i,
                offset: 1,
            }),
        word_exact_prog(w)[w.len() as int + 1] == (ItemV {
            instr: InstrV::Match,
            next: w.len() as int + 2,
            offset: 0,
        }),
{
    lemma_word_tail_shape(w, 1);
    lemma_emit_spec_len(word_exact_ast(w), 0);
    assert(word_exact_prog(w) == emit_spec(AstV::Start, 0) + emit_spec(word_tail_ast(w), 1));
}

/// The consuming phase of `^w$`: at `pc = 1 + j`, after matching the first
/// `j` bytes of the word, the run finishes with the exact-match verdict.
proof fn lemma_word_chars(w: Seq<u8>, input: Seq<u8>, j: int, stt: int)
    requires
        0 <= j <= w.len(),
        j <= input.len(),
        0 <= stt <= w.len() + 1,
        forall|i: int| 0 <= i < j ==> input[i] == w[i],
    ensures
        run_to(
            word_exact_prog(w),
            input,
            Cfg { pc: 1 + j, sc: j, st: stt, exact: true, stack: Seq::empty() },
            (w.len() + 1 - j) as nat,
        ) == Some(input == w),
    decreases w.len() - j,
{
    lemma_word_prog_shape(w);
    let prog = word_exact_prog(w);
    let e = (input == w);
    let c = Cfg { pc: 1 + j, sc: j, st: stt, exact: true, stack: Seq::empty() };
    if j == w.len() {
        // `Match`: accept iff the whole input was consumed.
        assert(step(prog, input, c) == StepRes::Done(j == input.len()));
        if j == input.len() {
            assert(input =~= w);
        } else {
            assert(input != w);
        }
    } else {
        // `Char(w[j])`: the byte must be there and must agree with the word.
        if j >= input.len() {
            assert(step(prog, input, c) == StepRes::Done(false));
            assert(input != w);
        } else if input[j] == w[j] {
            let c2 = Cfg { pc: 1 + (j + 1), sc: j + 1, st: j + 2, exact: true, stack: Seq::empty() };
            assert(step(prog, input, c) == StepRes::Going(c2));
            lemma_word_chars(w, input, j + 1, j + 2);
            assert(run_to(prog, input, c, (w.len() + 1 - j) as nat) == run_to(
                prog,
                input,
                c2,
                (w.len() - j) as nat,
            ));
        } else {
            // Mismatch with an empty stack in exact-match mode: reject.
            assert(step(prog, input, c) == StepRes::Done(false));
            assert(input != w);
        }
    }
}

/// Exact anchors, the termination half: the compiled `^w$` always finishes,
/// within `|w| + 2` transitions, accepting exactly the word itself.
pub proof fn lemma_exact_anchors_finishes(w: Seq<u8>, input: Seq<u8>)
    ensures
        run_to(word_exact_prog(w), input, init_cfg(), (w.len() + 2) as nat) == Some(input == w),
{
    lemma_word_prog_shape(w);
    let prog = word_exact_prog(w);
    let c1 = Cfg { pc: 1, sc: 0, st: 0, exact: true, stack: Seq::empty() };
    assert(step(prog, input, init_cfg()) == StepRes::Going(c1)) by {
        assert(init_cfg().stack =~= Seq::<crate::machine::Context>::empty());
        assert(c1.stack =~= Seq::<crate::machine::Context>::empty());
    }
    lemma_word_chars(w, input, 0, 0);
    assert(run_to(prog, input, init_cfg(), (w.len() + 2) as nat) == run_to(
        prog,
        input,
        c1,
        (w.len() + 1) as nat,
    ));
}

/// Exact anchors under the machines' budget: `^w$` is exact, so a pristine
/// run of either machine accepts exactly the input `w` itself.
pub proof fn lemma_exact_anchors_sem(w: Seq<u8>, input: Seq<u8>)
    requires
        w.len() + 2 <= RUN_FUEL,
    ensures
        sem(word_exact_prog(w), input) == Some(input == w),
{
    lemma_exact_anchors_finishes(w, input);
    lemma_run_to_mono(word_exact_prog(w), input, init_cfg(), (w.len() + 2) as nat, RUN_FUEL as nat);
}

/// Exact anchors: a finished run of the compiled `^w$` accepts exactly the
/// input `w` itself — a match may neither start after position 0 nor end
/// before the end of the input.
pub proof fn lemma_exact_anchors(w: Seq<u8>, input: Seq<u8>, b: bool)
    requires
        yields(word_exact_prog(w), input, init_cfg(), b),
    ensures
        b == (input == w),
{
    lemma_exact_anchors_finishes(w, input);
    let e = (input == w);
    assert(yields(word_exact_prog(w), input, init_cfg(), e));
    lemma_run_deterministic(word_exact_prog(w), input, init_cfg(), b, e);
}

/// The syntax tree of a nonempty literal word alone, as the compiler nests
/// it: each byte in front of the rest.
pub open spec fn word_chars_ast(w: Seq<u8>) -> AstV
    decreases w.len(),
{
    if w.len() <= 1 {
        AstV::Byte(w[0])
    } else {
        AstV::Concat(Box::new(AstV::Byte(w[0])), Box::new(word_chars_ast(w.drop_first())))
    }
}

/// The syntax tree of the pattern `^w` for a literal word `w`.
pub open spec fn word_prefix_ast(w: Seq<u8>) -> AstV {
    if w.len() == 0 {
        AstV::Start
    } else {
        AstV::Concat(Box::new(AstV::Start), Box::new(word_chars_ast(w)))
    }
}

/// The compiled form of `^w`.
pub open spec fn word_prefix_prog(w: Seq<u8>) -> Seq<ItemV> {
    emit_spec(word_prefix_ast(w), 0)
}

/// The language of `^w`: the inputs that begin with `w`.
pub open spec fn starts_with(input: Seq<u8>, w: Seq<u8>) -> bool {
    w.len() <= input.len() && input.take(w.len() as int) == w
}

/// What a nonempty word's bytes emit: one exact consume per byte.
proof fn lemma_word_chars_shape(w: Seq<u8>, base: int)
    requires
        w.len() >= 1,
    ensures
        emit_spec(word_chars_ast(w), base).len() == w.len(),
        emit_len(word_chars_ast(w)) == w.len(),
        forall|i: int|
            0 <= i < w.len() ==> #[trigger] emit_spec(word_chars_ast(w), base)[i] == (ItemV {
                instr: InstrV::Char(w[i]),
                next: base + i + 1,
                offset: 1,
            }),
    decreases w.len(),
{
    lemma_emit_spec_len(word_chars_ast(w), base);
    if w.len() > 1 {
        lemma_word_chars_shape(w.drop_first(), base + 1);
        lemma_emit_spec_len(word_chars_ast(w.drop_first()), base + 1);
        let s = emit_spec(word_chars_ast(w), base);
        let rest = emit_spec(word_chars_ast(w.drop_first()), base + 1);
        assert(s == emit_spec(AstV::Byte(w[0]), base) + rest);
        assert forall|i: int|
            0 <= i < w.len() implies #[trigger] s[i] == (ItemV {
                instr: InstrV::Char(w[i]),
                next: base + i + 1,
                offset: 1,
            }) by {
            if i > 0 {
                assert(s[i] == rest[i - 1]);
                assert(w.drop_first()[i - 1] == w[i]);
            }
        }
    }
}

/// What stands at each index of the compiled `^w`.
proof fn lemma_word_prefix_shape(w: Seq<u8>)
    ensures
        word_prefix_prog(w).len() == w.len() + 1,
        word_prefix_prog(w)[0] == (ItemV { instr: InstrV::Start, next: 1, offset: 0 }),
        forall|i: int|
            0 <= i < w.len() ==> #[trigger] word_prefix_prog(w)[1 + i] == (ItemV {
                instr: InstrV::Char(w[i]),
                next: 2 + i,
                offset: 1,
            }),
{
    if w.len() > 0 {
        lemma_word_chars_shape(w, 1);
        lemma_emit_spec_len(word_prefix_ast(w), 0);
        assert(word_prefix_prog(w) == emit_spec(AstV::Start, 0) + emit_spec(word_chars_ast(w), 1));
    }
}

/// The consuming phase of `^w`: at `pc = 1 + j`, after matching the first
/// `j` bytes of the word, the run finishes with the prefix verdict.
proof fn lemma_word_prefix_chars(w: Seq<u8>, input: Seq<u8>, j: int, stt: int)
    requires
        0 <= j <= w.len(),
        j <= input.len(),
        0 <= stt <= w.len() + 1,
        j < w.len() ==> stt <= w.len(),
        forall|i: int| 0 <= i < j ==> input[i] == w[i],
    ensures
        run_to(
            word_prefix_prog(w),
            input,
            Cfg { pc: 1 + j, sc: j, st: stt, exact: true, stack: Seq::empty() },
            (w.len() - j) as nat,
        ) == Some(starts_with(input, w)),
    decreases w.len() - j,
{
    lemma_word_prefix_shape(w);
    let prog = word_prefix_prog(w);
    let e = starts_with(input, w);
    let c = Cfg { pc: 1 + j, sc: j, st: stt, exact: true, stack: Seq::empty() };
    if j == w.len() {
        // Past the last instruction: the whole word was consumed, accept.
        assert(step(prog, input, c) == StepRes::Done(true));
        assert(input.take(w.len() as int) =~= w);
    } else {
        // `Char(w[j])`: the byte must be there and must agree with the word.
        if j >= input.len() {
            assert(step(prog, input, c) == StepRes::Done(false));
            assert(!e);
        } else if input[j] == w[j] {
            let c2 = Cfg { pc: 1 + (j + 1), sc: j + 1, st: j + 2, exact: true, stack: Seq::empty() };
            assert(step(prog, input, c) == StepRes::Going(c2));
            lemma_word_prefix_chars(w, input, j + 1, j + 2);
            assert(run_to(prog, input, c, (w.len() - j) as nat) == run_to(
                prog,
                input,
                c2,
                (w.len() - j - 1) as nat,
            ));
        } else {
            // Mismatch with an empty stack in exact-match mode: reject.
            assert(step(prog, input, c) == StepRes::Done(false));
            assert(e ==> input.take(w.len() as int)[j] == w[j]);
            assert(!e);
        }
    }
}

/// The start anchor, the termination half: the compiled `^w` always
/// finishes, within `|w| + 1` transitions, accepting exactly the inputs
/// that begin with `w` — a match that does not begin at position 0 is
/// rejected rather than retried.
pub proof fn lemma_start_anchor_finishes(w: Seq<u8>, input: Seq<u8>)
    ensures
        run_to(word_prefix_prog(w), input, init_cfg(), (w.len() + 1) as nat) == Some(
            starts_with(input, w),
        ),
{
    lemma_word_prefix_shape(w);
    let prog = word_prefix_prog(w);
    let c1 = Cfg { pc: 1, sc: 0, st: 0, exact: true, stack: Seq::empty() };
    assert(step(prog, input, init_cfg()) == StepRes::Going(c1)) by {
        assert(init_cfg().stack =~= Seq::<crate::machine::Context>::empty());
        assert(c1.stack =~= Seq::<crate::machine::Context>::empty());
    }
    lemma_word_prefix_chars(w, input, 0, 0);
    assert(run_to(prog, input, init_cfg(), (w.len() + 1) as nat) == run_to(
        prog,
        input,
        c1,
        w.len(),
    ));
}

/// The start anchor under the machines' budget: a pristine run of either
/// machine on the compiled `^w` accepts exactly the inputs that begin with
/// `w`.
pub proof fn lemma_start_anchor_sem(w: Seq<u8>, input: Seq<u8>)
    requires
        w.len() + 1 <= RUN_FUEL,
    ensures
        sem(word_prefix_prog(w), input) == Some(starts_with(input, w)),
{
    lemma_start_anchor_finishes(w, input);
    lemma_run_to_mono(word_prefix_prog(w), input, init_cfg(), (w.len() + 1) as nat, RUN_FUEL as nat);
}

/// The start anchor: a finished run of the compiled `^w` accepts exactly
/// the inputs that begin with `w`.
pub proof fn lemma_start_anchor(w: Seq<u8>, input: Seq<u8>, b: bool)
    requires
        yields(word_prefix_prog(w), input, init_cfg(), b),
    ensures
        b == starts_with(input, w),
{
    lemma_start_anchor_finishes(w, input);
    let e = starts_with(input, w);
    assert(yields(word_prefix_prog(w), input, init_cfg(), e));
    lemma_run_deterministic(word_prefix_prog(w), input, init_cfg(), b, e);
}

} // verus!
