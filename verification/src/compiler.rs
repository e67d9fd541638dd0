//! Lowering of a parsed pattern to a flat program.
//!
//! The pattern is first brought into the library's own syntax tree ([`Ast`]),
//! then emitted as bytecode.  [`emit_spec`] states the emission rules
//! declaratively: what stands at every index of the output for each syntax
//! form.  The executable emitter, which works by appending and backpatching
//! as the original sequence is built, is proved to produce exactly
//! [`emit_spec`] of its input.

use vstd::prelude::*;

use crate::program::{
    instr_view, item_view, prog_view, program_wf, ranges_wf, Action, ByteRange, Instruction,
    IntervalCharOptions, Program, ProgramItem,
};
use crate::program::{item_wf, InstrV, ItemV};

verus! {

/// The largest number of instructions a compiled program may hold; a pattern
/// that would exceed it is rejected with [`CompileError::TooLarge`].
pub const MAX_PROGRAM: usize = 0x7fff_ffff;

/// Why a pattern was rejected at compile time.
#[derive(Clone, Copy, Debug, PartialEq, Eq, Structural)]
pub enum CompileError {
    /// The pattern does not parse as a regular expression.
    Parse,
    /// The pattern parses but uses an unsupported feature: a line anchor, a
    /// word boundary, a literal or class range beyond one byte, or a
    /// quantifier over anything but a single literal or class.
    Unsupported,
    /// The parsed tree nests deeper than the converter's recursion budget.
    TooDeep,
    /// The emitted program would exceed [`MAX_PROGRAM`] instructions.
    TooLarge,
}

/// A single quantifiable atom: a literal byte or a character class.
#[derive(Debug)]
pub enum Atom {
    Byte(u8),
    Class(Vec<ByteRange>),
}

/// The shape of a quantifier.
#[derive(Clone, Copy, Debug, PartialEq, Eq, Structural)]
pub enum RepKind {
    ZeroOrOne,
    ZeroOrMore,
    OneOrMore,
    Exactly(u32),
    AtLeast(u32),
    Bounded(u32, u32),
}

/// The library's own syntax tree for the supported pattern surface.
/// Concatenation and alternation are right-nested binary forms; grouping is
/// transparent and does not appear.
#[derive(Debug)]
pub enum Ast {
    /// The empty pattern; it emits `Match`.
    Empty,
    /// A literal byte.
    Byte(u8),
    /// A character class as inclusive byte ranges.
    Class(Vec<ByteRange>),
    /// The `^` anchor.
    Start,
    /// The `$` anchor.
    End,
    Concat(Box<Ast>, Box<Ast>),
    Alt(Box<Ast>, Box<Ast>),
    /// A quantifier over a single atom.
    Rep(RepKind, Atom),
}

/// The mathematical form of an atom.
pub enum AtomV {
    Byte(u8),
    Class(Seq<ByteRange>),
}

/// The mathematical form of a syntax tree.
pub enum AstV {
    Empty,
    Byte(u8),
    Class(Seq<ByteRange>),
    Start,
    End,
    Concat(Box<AstV>, Box<AstV>),
    Alt(Box<AstV>, Box<AstV>),
    Rep(RepKind, AtomV),
}

pub open spec fn atom_view(a: Atom) -> AtomV {
    match a {
        Atom::Byte(c) => AtomV::Byte(c),
        Atom::Class(rs) => AtomV::Class(rs@),
    }
}

pub open spec fn ast_view(a: Ast) -> AstV
    decreases a,
{
    match a {
        Ast::Empty => AstV::Empty,
        Ast::Byte(c) => AstV::Byte(c),
        Ast::Class(rs) => AstV::Class(rs@),
        Ast::Start => AstV::Start,
        Ast::End => AstV::End,
        Ast::Concat(x, y) => AstV::Concat(Box::new(ast_view(*x)), Box::new(ast_view(*y))),
        Ast::Alt(x, y) => AstV::Alt(Box::new(ast_view(*x)), Box::new(ast_view(*y))),
        Ast::Rep(k, at) => AstV::Rep(k, atom_view(at)),
    }
}

/// Validity of an atom: class ranges are inclusive and ordered.
pub open spec fn atom_wf(a: AtomV) -> bool {
    match a {
        AtomV::Byte(_) => true,
        AtomV::Class(rs) => ranges_wf(rs),
    }
}

/// Validity of a syntax tree: every class is well formed and every bounded
/// quantifier has its least count at most its greatest.
pub open spec fn ast_wf(a: AstV) -> bool
    decreases a,
{
    match a {
        AstV::Empty => true,
        AstV::Byte(_) => true,
        AstV::Class(rs) => ranges_wf(rs),
        AstV::Start => true,
        AstV::End => true,
        AstV::Concat(x, y) => ast_wf(*x) && ast_wf(*y),
        AstV::Alt(x, y) => ast_wf(*x) && ast_wf(*y),
        AstV::Rep(k, at) => atom_wf(at) && match k {
            RepKind::Bounded(m, n) => m <= n,
            _ => true,
        },
    }
}

/// The instruction that consumes one occurrence of an atom exactly.
pub open spec fn ch_instr(a: AtomV) -> InstrV {
    match a {
        AtomV::Byte(c) => InstrV::Char(c),
        AtomV::Class(rs) => InstrV::IntervalChar { ranges: rs, can_repeat: false, is_optional: false },
    }
}

/// The instruction that consumes zero or more occurrences of an atom.
pub open spec fn rep_instr(a: AtomV) -> InstrV {
    match a {
        AtomV::Byte(c) => InstrV::Repetition(c),
        AtomV::Class(rs) => InstrV::IntervalChar { ranges: rs, can_repeat: true, is_optional: false },
    }
}

/// The instruction that consumes at most one occurrence of an atom.
pub open spec fn opt_instr(a: AtomV) -> InstrV {
    match a {
        AtomV::Byte(c) => InstrV::OptionalChar(c),
        AtomV::Class(rs) => InstrV::IntervalChar { ranges: rs, can_repeat: false, is_optional: true },
    }
}

/// A consuming entry at index `idx`: fall through to the next index, move
/// one byte on a consume.
pub open spec fn consume_item(instr: InstrV, idx: int) -> ItemV {
    ItemV { instr: instr, next: idx + 1, offset: 1 }
}

/// How many instructions a syntax form emits.
pub open spec fn emit_len(a: AstV) -> nat
    decreases a,
{
    match a {
        AstV::Empty => 1,
        AstV::Byte(_) => 1,
        AstV::Class(_) => 1,
        AstV::Start => 1,
        AstV::End => 1,
        AstV::Concat(x, y) => emit_len(*x) + emit_len(*y),
        AstV::Alt(x, y) => emit_len(*x) + emit_len(*y) + 2,
        AstV::Rep(k, _) => match k {
            RepKind::ZeroOrOne => 1,
            RepKind::ZeroOrMore => 1,
            RepKind::OneOrMore => 2,
            RepKind::Exactly(n) => n as nat,
            RepKind::AtLeast(n) => n as nat + 1,
            RepKind::Bounded(m, n) => if m <= n {
                n as nat
            } else {
                m as nat
            },
        },
    }
}

/// What a syntax form emits when its first instruction stands at `base`.
///
/// An alternation `A|B` emits a `Branch` aimed at `B`, then `A`, then a
/// `Jump` over `B` aimed at the join point, then `B`.  A quantifier over an
/// atom emits the unrolling described by the surface syntax: `X+` one exact
/// consume then a repetition, `X{m,n}` `m` exact consumes then `n-m`
/// optional ones, and so on.
pub open spec fn emit_spec(a: AstV, base: int) -> Seq<ItemV>
    decreases a,
{
    match a {
        AstV::Empty => seq![ItemV { instr: InstrV::Match, next: base + 1, offset: 0 }],
        AstV::Byte(c) => seq![consume_item(InstrV::Char(c), base)],
        AstV::Class(rs) => seq![consume_item(ch_instr(AtomV::Class(rs)), base)],
        AstV::Start => seq![ItemV { instr: InstrV::Start, next: base + 1, offset: 0 }],
        AstV::End => seq![ItemV { instr: InstrV::Match, next: base + 1, offset: 0 }],
        AstV::Concat(x, y) => emit_spec(*x, base) + emit_spec(*y, base + emit_len(*x)),
        AstV::Alt(x, y) => {
            let la = emit_len(*x) as int;
            let lb = emit_len(*y) as int;
            seq![ItemV { instr: InstrV::Branch(base + 2 + la), next: base + 1, offset: 0 }]
                + emit_spec(*x, base + 1)
                + seq![ItemV { instr: InstrV::Jump(base + 2 + la + lb), next: 0, offset: 0 }]
                + emit_spec(*y, base + 2 + la)
        },
        AstV::Rep(k, at) => match k {
            RepKind::ZeroOrOne => seq![consume_item(opt_instr(at), base)],
            RepKind::ZeroOrMore => seq![consume_item(rep_instr(at), base)],
            RepKind::OneOrMore => seq![
                consume_item(ch_instr(at), base),
                consume_item(rep_instr(at), base + 1),
            ],
            RepKind::Exactly(n) => Seq::new(n as nat, |i: int| consume_item(ch_instr(at), base + i)),
            RepKind::AtLeast(n) => Seq::new(
                n as nat,
                |i: int| consume_item(ch_instr(at), base + i),
            ).push(consume_item(rep_instr(at), base + n)),
            RepKind::Bounded(m, n) => {
                let extra: nat = if m <= n {
                    (n - m) as nat
                } else {
                    0
                };
                Seq::new(m as nat, |i: int| consume_item(ch_instr(at), base + i)) + Seq::new(
                    extra,
                    |i: int| consume_item(opt_instr(at), base + m + i),
                )
            },
        },
    }
}

/// What a form emits is as long as [`emit_len`] says.
pub proof fn lemma_emit_spec_len(a: AstV, base: int)
    ensures
        emit_spec(a, base).len() == emit_len(a),
    decreases a,
{
    match a {
        AstV::Concat(x, y) => {
            lemma_emit_spec_len(*x, base);
            lemma_emit_spec_len(*y, base + emit_len(*x));
        },
        AstV::Alt(x, y) => {
            let la = emit_len(*x) as int;
            lemma_emit_spec_len(*x, base + 1);
            lemma_emit_spec_len(*y, base + 2 + la);
        },
        _ => {},
    }
}

/// Every entry a well-formed tree emits is well formed with respect to any
/// program length that covers the emitted span.
pub proof fn lemma_emit_wf(a: AstV, base: int, n: nat)
    requires
        ast_wf(a),
        0 <= base,
        base + emit_len(a) <= n,
    ensures
        forall|j: int|
            0 <= j < emit_spec(a, base).len() ==> #[trigger] item_wf(emit_spec(a, base)[j], n),
    decreases a,
{
    lemma_emit_spec_len(a, base);
    match a {
        AstV::Concat(x, y) => {
            lemma_emit_spec_len(*x, base);
            lemma_emit_spec_len(*y, base + emit_len(*x));
            lemma_emit_wf(*x, base, n);
            lemma_emit_wf(*y, base + emit_len(*x), n);
            let s = emit_spec(a, base);
            let sx = emit_spec(*x, base);
            let sy = emit_spec(*y, base + emit_len(*x));
            assert forall|j: int| 0 <= j < s.len() implies #[trigger] item_wf(s[j], n) by {
                if j < sx.len() {
                    assert(s[j] == sx[j]);
                } else {
                    assert(s[j] == sy[j - sx.len()]);
                }
            }
        },
        AstV::Alt(x, y) => {
            let la = emit_len(*x) as int;
            let lb = emit_len(*y) as int;
            lemma_emit_spec_len(*x, base + 1);
            lemma_emit_spec_len(*y, base + 2 + la);
            lemma_emit_wf(*x, base + 1, n);
            lemma_emit_wf(*y, base + 2 + la, n);
            let s = emit_spec(a, base);
            let sx = emit_spec(*x, base + 1);
            let sy = emit_spec(*y, base + 2 + la);
            assert forall|j: int| 0 <= j < s.len() implies #[trigger] item_wf(s[j], n) by {
                if j == 0 {
                    assert(s[0] == ItemV { instr: InstrV::Branch(base + 2 + la), next: base + 1, offset: 0 });
                } else if j < 1 + la {
                    assert(s[j] == sx[j - 1]);
                } else if j == 1 + la {
                    assert(s[j] == ItemV { instr: InstrV::Jump(base + 2 + la + lb), next: 0, offset: 0 });
                } else {
                    assert(s[j] == sy[j - 2 - la]);
                }
            }
        },
        _ => {},
    }
}

/// A program emitted from index 0 by a well-formed tree is well formed.
pub proof fn lemma_emit_program_wf(a: AstV)
    requires
        ast_wf(a),
    ensures
        program_wf(emit_spec(a, 0)),
{
    lemma_emit_spec_len(a, 0);
    lemma_emit_wf(a, 0, emit_len(a));
}

/// Mapping a program to its mathematical form distributes over appending.
proof fn lemma_prog_view_push(s: Seq<ProgramItem>, x: ProgramItem)
    ensures
        prog_view(s.push(x)) == prog_view(s).push(item_view(x)),
{
    assert(prog_view(s.push(x)) =~= prog_view(s).push(item_view(x)));
}

/// Mapping a program to its mathematical form distributes over updating.
proof fn lemma_prog_view_update(s: Seq<ProgramItem>, i: int, x: ProgramItem)
    requires
        0 <= i < s.len(),
    ensures
        prog_view(s.update(i, x)) == prog_view(s).update(i, item_view(x)),
{
    assert(prog_view(s.update(i, x)) =~= prog_view(s).update(i, item_view(x)));
}

/// An exact copy of a class's ranges, so each emitted instruction carries
/// its own.
fn copy_ranges(rs: &Vec<ByteRange>) -> (r: Vec<ByteRange>)
    ensures
        r@ == rs@,
{
    let mut out: Vec<ByteRange> = Vec::new();
    let mut i: usize = 0;
    while i < rs.len()
        invariant
            i <= rs@.len(),
            out@ == rs@.subrange(0, i as int),
        decreases rs@.len() - i,
    {
        out.push(rs[i]);
        proof {
            assert(rs@.subrange(0, i as int).push(rs@[i as int]) =~= rs@.subrange(0, i + 1 as int));
        }
        i += 1;
    }
    proof {
        assert(out@ =~= rs@);
    }
    out
}

/// The exact-consume instruction for an atom.
fn make_ch(atom: &Atom) -> (r: Instruction)
    ensures
        instr_view(r) == ch_instr(atom_view(*atom)),
{
    match atom {
        Atom::Byte(c) => Instruction::Char(*c),
        Atom::Class(rs) => Instruction::IntervalChar(
            IntervalCharOptions { range: copy_ranges(rs), can_repeat: false, is_optional: false },
        ),
    }
}

/// The zero-or-more instruction for an atom.
fn make_rep(atom: &Atom) -> (r: Instruction)
    ensures
        instr_view(r) == rep_instr(atom_view(*atom)),
{
    match atom {
        Atom::Byte(c) => Instruction::Repetition(*c),
        Atom::Class(rs) => Instruction::IntervalChar(
            IntervalCharOptions { range: copy_ranges(rs), can_repeat: true, is_optional: false },
        ),
    }
}

/// The at-most-one instruction for an atom.
fn make_opt(atom: &Atom) -> (r: Instruction)
    ensures
        instr_view(r) == opt_instr(atom_view(*atom)),
{
    match atom {
        Atom::Byte(c) => Instruction::OptionalChar(*c),
        Atom::Class(rs) => Instruction::IntervalChar(
            IntervalCharOptions { range: copy_ranges(rs), can_repeat: false, is_optional: true },
        ),
    }
}

/// Append one entry, refusing to grow past [`MAX_PROGRAM`].
fn push_raw(out: &mut Vec<ProgramItem>, pi: ProgramItem) -> (r: Result<(), CompileError>)
    ensures
        r is Ok ==> old(out)@.len() < MAX_PROGRAM && final(out)@.len() == old(out)@.len() + 1
            && prog_view(final(out)@) == prog_view(old(out)@).push(item_view(pi)),
        r is Err ==> r == Err::<(), CompileError>(CompileError::TooLarge) && old(out)@.len()
            >= MAX_PROGRAM && final(out)@ == old(out)@,
{
    if out.len() >= MAX_PROGRAM {
        return Err(CompileError::TooLarge);
    }
    let ghost before = out@;
    out.push(pi);
    proof {
        lemma_prog_view_push(before, pi);
    }
    Ok(())
}

/// Append a consuming or anchoring entry that falls through to the next
/// index with the given consume offset.
fn push_at(out: &mut Vec<ProgramItem>, instr: Instruction, offset: i32) -> (r: Result<
    (),
    CompileError,
>)
    ensures
        r is Ok ==> old(out)@.len() < MAX_PROGRAM && final(out)@.len() == old(out)@.len() + 1
            && prog_view(final(out)@) == prog_view(old(out)@).push(
            ItemV {
                instr: instr_view(instr),
                next: old(out)@.len() as int + 1,
                offset: offset as int,
            },
        ),
        r is Err ==> r == Err::<(), CompileError>(CompileError::TooLarge) && old(out)@.len()
            >= MAX_PROGRAM && final(out)@ == old(out)@,
{
    if out.len() >= MAX_PROGRAM {
        return Err(CompileError::TooLarge);
    }
    let idx = out.len();
    push_raw(out, ProgramItem { instruction: instr, action: Action { next: idx + 1, offset } })
}

/// Append `n` copies of an atom's exact or optional consume.
fn emit_copies(out: &mut Vec<ProgramItem>, atom: &Atom, n: u32, optional: bool) -> (r: Result<
    (),
    CompileError,
>)
    requires
        old(out)@.len() <= MAX_PROGRAM,
    ensures
        r is Ok ==> old(out)@.len() + n <= MAX_PROGRAM && final(out)@.len() == old(out)@.len()
            + n && prog_view(final(out)@) == prog_view(old(out)@) + Seq::new(
            n as nat,
            |i: int|
                consume_item(
                    if optional {
                        opt_instr(atom_view(*atom))
                    } else {
                        ch_instr(atom_view(*atom))
                    },
                    old(out)@.len() + i,
                ),
        ),
        r is Err ==> r == Err::<(), CompileError>(CompileError::TooLarge) && old(out)@.len()
            + n > MAX_PROGRAM,
{
    let ghost base = old(out)@.len() as int;
    let ghost target = Seq::new(
        n as nat,
        |i: int|
            consume_item(
                if optional {
                    opt_instr(atom_view(*atom))
                } else {
                    ch_instr(atom_view(*atom))
                },
                base + i,
            ),
    );
    if n as usize > MAX_PROGRAM - out.len() {
        return Err(CompileError::TooLarge);
    }
    let mut i: u32 = 0;
    while i < n
        invariant
            i <= n,
            base == old(out)@.len(),
            base + n <= MAX_PROGRAM,
            out@.len() == base + i,
            out@.len() <= MAX_PROGRAM,
            target == Seq::new(
                n as nat,
                |k: int|
                    consume_item(
                        if optional {
                            opt_instr(atom_view(*atom))
                        } else {
                            ch_instr(atom_view(*atom))
                        },
                        base + k,
                    ),
            ),
            prog_view(out@) == prog_view(old(out)@) + target.take(i as int),
        decreases n - i,
    {
        let instr = if optional {
            make_opt(atom)
        } else {
            make_ch(atom)
        };
        let ghost before = prog_view(out@);
        match push_at(out, instr, 1) {
            Ok(()) => {},
            Err(e) => {
                proof {
                    assert(base + i >= MAX_PROGRAM);
                }
                return Err(e);
            },
        }
        proof {
            assert(before.push(target[i as int]) =~= prog_view(old(out)@) + target.take(i + 1));
        }
        i += 1;
    }
    proof {
        assert(target.take(n as int) =~= target);
        assert(prog_view(out@) =~= prog_view(old(out)@) + Seq::new(
            n as nat,
            |i: int|
                consume_item(
                    if optional {
                        opt_instr(atom_view(*atom))
                    } else {
                        ch_instr(atom_view(*atom))
                    },
                    old(out)@.len() + i,
                ),
        ));
    }
    Ok(())
}

/// The backpatched build of an alternation equals its declarative layout:
/// pushing a placeholder branch, the first alternative, a placeholder jump,
/// then patching the branch, appending the second alternative and patching
/// the jump gives exactly the emitted form of `A|B`.
proof fn lemma_alt_assembly(v0: Seq<ItemV>, a: AstV, b: AstV, base: int)
    requires
        base == v0.len(),
    ensures
        (((v0.push(ItemV { instr: InstrV::Branch(0), next: base + 1, offset: 0 }) + emit_spec(
            a,
            base + 1,
        )).push(ItemV { instr: InstrV::Jump(0), next: 0, offset: 0 })).update(
            base,
            ItemV {
                instr: InstrV::Branch(base + 2 + emit_len(a)),
                next: base + 1,
                offset: 0,
            },
        ) + emit_spec(b, base + 2 + emit_len(a))).update(
            base + 1 + emit_len(a),
            ItemV {
                instr: InstrV::Jump(base + 2 + emit_len(a) + emit_len(b)),
                next: 0,
                offset: 0,
            },
        ) == v0 + emit_spec(AstV::Alt(Box::new(a), Box::new(b)), base),
{
    lemma_emit_spec_len(a, base + 1);
    lemma_emit_spec_len(b, base + 2 + emit_len(a));
    let la = emit_len(a) as int;
    let lb = emit_len(b) as int;
    let br = ItemV { instr: InstrV::Branch(base + 2 + la), next: base + 1, offset: 0 };
    let jp = ItemV { instr: InstrV::Jump(base + 2 + la + lb), next: 0, offset: 0 };
    let sa = emit_spec(a, base + 1);
    let sb = emit_spec(b, base + 2 + la);
    assert(emit_spec(AstV::Alt(Box::new(a), Box::new(b)), base) =~= seq![br] + sa + seq![jp]
        + sb);
    assert(((((v0.push(ItemV { instr: InstrV::Branch(0), next: base + 1, offset: 0 }) + sa).push(
        ItemV { instr: InstrV::Jump(0), next: 0, offset: 0 },
    )).update(base, br) + sb).update(base + 1 + la, jp)) =~= v0 + (seq![br] + sa + seq![jp]
        + sb));
}

/// Append the unrolling of a quantifier over one atom.
fn emit_rep(out: &mut Vec<ProgramItem>, k: RepKind, atom: &Atom) -> (r: Result<(), CompileError>)
    requires
        old(out)@.len() <= MAX_PROGRAM,
    ensures
        r is Ok ==> old(out)@.len() + emit_len(AstV::Rep(k, atom_view(*atom))) <= MAX_PROGRAM
            && final(out)@.len() == old(out)@.len() + emit_len(AstV::Rep(k, atom_view(*atom)))
            && prog_view(final(out)@) == prog_view(old(out)@) + emit_spec(
            AstV::Rep(k, atom_view(*atom)),
            old(out)@.len() as int,
        ),
        r is Err ==> r == Err::<(), CompileError>(CompileError::TooLarge) && old(out)@.len()
            + emit_len(AstV::Rep(k, atom_view(*atom))) > MAX_PROGRAM,
{
    let ghost base = old(out)@.len() as int;
    let ghost av = AstV::Rep(k, atom_view(*atom));
    match k {
        RepKind::ZeroOrOne => {
            let instr = make_opt(atom);
            match push_at(out, instr, 1) {
                Ok(()) => {},
                Err(e) => {
                    return Err(e);
                },
            }
            proof {
                assert(prog_view(out@) =~= prog_view(old(out)@) + emit_spec(av, base));
            }
            Ok(())
        },
        RepKind::ZeroOrMore => {
            let instr = make_rep(atom);
            match push_at(out, instr, 1) {
                Ok(()) => {},
                Err(e) => {
                    return Err(e);
                },
            }
            proof {
                assert(prog_view(out@) =~= prog_view(old(out)@) + emit_spec(av, base));
            }
            Ok(())
        },
        RepKind::OneOrMore => {
            let first = make_ch(atom);
            match push_at(out, first, 1) {
                Ok(()) => {},
                Err(e) => {
                    return Err(e);
                },
            }
            let second = make_rep(atom);
            match push_at(out, second, 1) {
                Ok(()) => {},
                Err(e) => {
                    return Err(e);
                },
            }
            proof {
                assert(prog_view(out@) =~= prog_view(old(out)@) + emit_spec(av, base));
            }
            Ok(())
        },
        RepKind::Exactly(n) => {
            match emit_copies(out, atom, n, false) {
                Ok(()) => {},
                Err(e) => {
                    return Err(e);
                },
            }
            proof {
                assert(prog_view(out@) =~= prog_view(old(out)@) + emit_spec(av, base));
            }
            Ok(())
        },
        RepKind::AtLeast(n) => {
            match emit_copies(out, atom, n, false) {
                Ok(()) => {},
                Err(e) => {
                    return Err(e);
                },
            }
            let tail = make_rep(atom);
            match push_at(out, tail, 1) {
                Ok(()) => {},
                Err(e) => {
                    return Err(e);
                },
            }
            proof {
                assert(prog_view(out@) =~= prog_view(old(out)@) + emit_spec(av, base));
            }
            Ok(())
        },
        RepKind::Bounded(m, n) => {
            let extra: u32 = if m <= n {
                n - m
            } else {
                0
            };
            match emit_copies(out, atom, m, false) {
                Ok(()) => {},
                Err(e) => {
                    return Err(e);
                },
            }
            match emit_copies(out, atom, extra, true) {
                Ok(()) => {},
                Err(e) => {
                    return Err(e);
                },
            }
            proof {
                assert(prog_view(out@) =~= prog_view(old(out)@) + emit_spec(av, base));
            }
            Ok(())
        },
    }
}

/// Append the code of a tree, exactly as [`emit_spec`] lays it out at the
/// current end of the program.
#[verifier::rlimit(100)]
#[verifier::spinoff_prover]
fn emit_ast(out: &mut Vec<ProgramItem>, ast: &Ast) -> (r: Result<(), CompileError>)
    requires
        old(out)@.len() <= MAX_PROGRAM,
    ensures
        r is Ok ==> old(out)@.len() + emit_len(ast_view(*ast)) <= MAX_PROGRAM
            && final(out)@.len() == old(out)@.len() + emit_len(ast_view(*ast))
            && prog_view(final(out)@) == prog_view(old(out)@) + emit_spec(
            ast_view(*ast),
            old(out)@.len() as int,
        ),
        r is Err ==> r == Err::<(), CompileError>(CompileError::TooLarge) && old(out)@.len()
            + emit_len(ast_view(*ast)) > MAX_PROGRAM,
    decreases *ast,
{
    let ghost base = old(out)@.len() as int;
    match ast {
        Ast::Empty => {
            match push_at(out, Instruction::Match, 0) {
                Ok(()) => {},
                Err(e) => {
                    return Err(e);
                },
            }
            proof {
                assert(prog_view(out@) =~= prog_view(old(out)@) + emit_spec(
                    ast_view(*ast),
                    base,
                ));
            }
            Ok(())
        },
        Ast::Byte(c) => {
            match push_at(out, Instruction::Char(*c), 1) {
                Ok(()) => {},
                Err(e) => {
                    return Err(e);
                },
            }
            proof {
                assert(prog_view(out@) =~= prog_view(old(out)@) + emit_spec(
                    ast_view(*ast),
                    base,
                ));
            }
            Ok(())
        },
        Ast::Class(rs) => {
            let instr = Instruction::IntervalChar(
                IntervalCharOptions {
                    range: copy_ranges(rs),
                    can_repeat: false,
                    is_optional: false,
                },
            );
            match push_at(out, instr, 1) {
                Ok(()) => {},
                Err(e) => {
                    return Err(e);
                },
            }
            proof {
                assert(prog_view(out@) =~= prog_view(old(out)@) + emit_spec(
                    ast_view(*ast),
                    base,
                ));
            }
            Ok(())
        },
        Ast::Start => {
            match push_at(out, Instruction::Start, 0) {
                Ok(()) => {},
                Err(e) => {
                    return Err(e);
                },
            }
            proof {
                assert(prog_view(out@) =~= prog_view(old(out)@) + emit_spec(
                    ast_view(*ast),
                    base,
                ));
            }
            Ok(())
        },
        Ast::End => {
            match push_at(out, Instruction::Match, 0) {
                Ok(()) => {},
                Err(e) => {
                    return Err(e);
                },
            }
            proof {
                assert(prog_view(out@) =~= prog_view(old(out)@) + emit_spec(
                    ast_view(*ast),
                    base,
                ));
            }
            Ok(())
        },
        Ast::Concat(a, b) => {
            match emit_ast(out, a) {
                Ok(()) => {},
                Err(e) => {
                    return Err(e);
                },
            }
            match emit_ast(out, b) {
                Ok(()) => {},
                Err(e) => {
                    proof {
                        lemma_emit_spec_len(ast_view(**a), base);
                    }
                    return Err(e);
                },
            }
            proof {
                assert(prog_view(out@) =~= prog_view(old(out)@) + emit_spec(
                    ast_view(*ast),
                    base,
                ));
            }
            Ok(())
        },
        Ast::Alt(a, b) => {
            let branch_idx = out.len();
            match push_at(out, Instruction::Branch(0), 0) {
                Ok(()) => {},
                Err(e) => {
                    return Err(e);
                },
            }
            match emit_ast(out, a) {
                Ok(()) => {},
                Err(e) => {
                    return Err(e);
                },
            }
            let jump_idx = out.len();
            match push_raw(
                out,
                ProgramItem {
                    instruction: Instruction::Jump(0),
                    action: Action { next: 0, offset: 0 },
                },
            ) {
                Ok(()) => {},
                Err(e) => {
                    return Err(e);
                },
            }
            let t_second = out.len();
            let ghost s_before_patch = out@;
            out[branch_idx] = ProgramItem {
                instruction: Instruction::Branch(t_second),
                action: Action { next: branch_idx + 1, offset: 0 },
            };
            proof {
                lemma_prog_view_update(
                    s_before_patch,
                    branch_idx as int,
                    ProgramItem {
                        instruction: Instruction::Branch(t_second),
                        action: Action { next: (branch_idx + 1) as usize, offset: 0 },
                    },
                );
            }
            match emit_ast(out, b) {
                Ok(()) => {},
                Err(e) => {
                    return Err(e);
                },
            }
            let t_join = out.len();
            let ghost s_before_patch2 = out@;
            out[jump_idx] = ProgramItem {
                instruction: Instruction::Jump(t_join),
                action: Action { next: 0, offset: 0 },
            };
            proof {
                lemma_prog_view_update(
                    s_before_patch2,
                    jump_idx as int,
                    ProgramItem {
                        instruction: Instruction::Jump(t_join),
                        action: Action { next: 0, offset: 0 },
                    },
                );
                lemma_alt_assembly(prog_view(old(out)@), ast_view(**a), ast_view(**b), base);
                assert(ast_view(*ast) == AstV::Alt(
                    Box::new(ast_view(**a)),
                    Box::new(ast_view(**b)),
                ));
            }
            Ok(())
        },
        Ast::Rep(k, atom) => {
            emit_rep(out, *k, atom)
        },
    }
}

/// Lower a syntax tree to a program.
///
/// Succeeds exactly when the emitted code fits in [`MAX_PROGRAM`]
/// instructions; the produced program is exactly [`emit_spec`] of the tree,
/// and is well formed whenever the tree is.
pub fn compile_ast(ast: &Ast) -> (r: Result<Program, CompileError>)
    ensures
        match r {
            Ok(p) => emit_len(ast_view(*ast)) <= MAX_PROGRAM && p@.len() == emit_len(
                ast_view(*ast),
            ) && prog_view(p@) == emit_spec(ast_view(*ast), 0) && (ast_wf(ast_view(*ast))
                ==> program_wf(prog_view(p@))),
            Err(e) => e == CompileError::TooLarge && emit_len(ast_view(*ast)) > MAX_PROGRAM,
        },
{
    let mut out: Vec<ProgramItem> = Vec::new();
    match emit_ast(&mut out, ast) {
        Ok(()) => {
            proof {
                assert(prog_view(out@) =~= emit_spec(ast_view(*ast), 0));
                lemma_emit_spec_len(ast_view(*ast), 0);
                if ast_wf(ast_view(*ast)) {
                    lemma_emit_program_wf(ast_view(*ast));
                }
            }
            Ok(out)
        },
        Err(e) => Err(e),
    }
}

/// The byte form of parsed class ranges.  A range must be ordered and
/// start within a byte; its end is clamped to 255, so a class reaching past
/// the byte alphabet (the any-character class, a negated class) keeps its
/// byte part, while a class lying wholly beyond one byte is rejected.
fn ranges_to_byte_ranges(rs: &Vec<(u32, u32)>) -> (r: Result<Vec<ByteRange>, CompileError>)
    ensures
        match r {
            Ok(v) => {
                &&& forall|i: int|
                    0 <= i < rs@.len() ==> (#[trigger] rs@[i]).0 <= rs@[i].1 && rs@[i].0 <= 255
                &&& v@.len() == rs@.len()
                &&& forall|i: int|
                    0 <= i < v@.len() ==> (#[trigger] v@[i]).start as u32 == rs@[i].0
                        && v@[i].end as u32 == (if rs@[i].1 <= 255 {
                        rs@[i].1
                    } else {
                        255
                    })
                &&& ranges_wf(v@)
            },
            Err(e) => e == CompileError::Unsupported && exists|i: int|
                0 <= i < rs@.len() && ((#[trigger] rs@[i]).0 > rs@[i].1 || rs@[i].0 > 255),
        },
{
    let mut out: Vec<ByteRange> = Vec::new();
    let mut i: usize = 0;
    while i < rs.len()
        invariant
            i <= rs@.len(),
            out@.len() == i,
            forall|j: int| 0 <= j < i ==> (#[trigger] rs@[j]).0 <= rs@[j].1 && rs@[j].0 <= 255,
            forall|j: int|
                0 <= j < i ==> (#[trigger] out@[j]).start as u32 == rs@[j].0 && out@[j].end as u32
                    == (if rs@[j].1 <= 255 {
                    rs@[j].1
                } else {
                    255
                }),
        decreases rs@.len() - i,
    {
        let (s, e) = rs[i];
        if s > e || s > 255 {
            return Err(CompileError::Unsupported);
        }
        let e_clamped: u32 = if e <= 255 {
            e
        } else {
            255
        };
        out.push(ByteRange { start: s as u8, end: e_clamped as u8 });
        i += 1;
    }
    proof {
        assert forall|j: int| 0 <= j < out@.len() implies (#[trigger] out@[j]).start <= out@[j].end by {
            assert(rs@[j].0 <= rs@[j].1 && rs@[j].0 <= 255);
        }
    }
    Ok(out)
}

/// The quantifiable atom under a quantifier: a literal byte or a class,
/// with grouping unwrapped; anything else is rejected.
fn hir_to_atom(h: &regex_syntax::hir::Hir, fuel: u32) -> (r: Result<Atom, CompileError>)
    ensures
        r matches Ok(a) ==> atom_wf(atom_view(a)),
    decreases fuel,
{
    if fuel == 0 {
        return Err(CompileError::TooDeep);
    }
    match crate::hir::hir_tag(h) {
        crate::hir::HirTag::Literal => {
            let v = crate::hir::hir_literal_value(h);
            if v > 255 {
                Err(CompileError::Unsupported)
            } else {
                Ok(Atom::Byte(v as u8))
            }
        },
        crate::hir::HirTag::Class => {
            let rs = crate::hir::hir_class_ranges(h);
            match ranges_to_byte_ranges(&rs) {
                Ok(v) => Ok(Atom::Class(v)),
                Err(e) => Err(e),
            }
        },
        crate::hir::HirTag::Group => {
            let kids = crate::hir::hir_children(h);
            if kids.len() == 1 {
                hir_to_atom(&kids[0], fuel - 1)
            } else {
                Err(CompileError::Unsupported)
            }
        },
        _ => Err(CompileError::Unsupported),
    }
}

/// Bring one parsed node into the library's syntax tree.
///
/// Line anchors, word boundaries, literals and class endpoints beyond one
/// byte, and quantifiers over anything but a single atom are rejected as
/// unsupported; `fuel` bounds the recursion over the parsed tree.
fn hir_to_ast(h: &regex_syntax::hir::Hir, fuel: u32) -> (r: Result<Ast, CompileError>)
    ensures
        r matches Ok(a) ==> ast_wf(ast_view(a)),
    decreases fuel,
{
    if fuel == 0 {
        return Err(CompileError::TooDeep);
    }
    match crate::hir::hir_tag(h) {
        crate::hir::HirTag::Empty => Ok(Ast::Empty),
        crate::hir::HirTag::Literal => {
            let v = crate::hir::hir_literal_value(h);
            if v > 255 {
                Err(CompileError::Unsupported)
            } else {
                Ok(Ast::Byte(v as u8))
            }
        },
        crate::hir::HirTag::Class => {
            let rs = crate::hir::hir_class_ranges(h);
            match ranges_to_byte_ranges(&rs) {
                Ok(v) => Ok(Ast::Class(v)),
                Err(e) => Err(e),
            }
        },
        crate::hir::HirTag::Anchor => {
            match crate::hir::hir_anchor_kind(h) {
                Some(crate::hir::AnchorKind::TextStart) => Ok(Ast::Start),
                Some(crate::hir::AnchorKind::TextEnd) => Ok(Ast::End),
                _ => Err(CompileError::Unsupported),
            }
        },
        crate::hir::HirTag::WordBoundary => Err(CompileError::Unsupported),
        crate::hir::HirTag::Group => {
            let kids = crate::hir::hir_children(h);
            if kids.len() == 1 {
                hir_to_ast(&kids[0], fuel - 1)
            } else {
                Err(CompileError::Unsupported)
            }
        },
        crate::hir::HirTag::Repetition => {
            let kids = crate::hir::hir_children(h);
            if kids.len() != 1 {
                return Err(CompileError::Unsupported);
            }
            let atom = match hir_to_atom(&kids[0], fuel - 1) {
                Ok(a) => a,
                Err(e) => {
                    return Err(e);
                },
            };
            let kind = match crate::hir::hir_rep_kind(h) {
                Some(k) => k,
                None => {
                    return Err(CompileError::Unsupported);
                },
            };
            if let RepKind::Bounded(m, n) = kind {
                if m > n {
                    return Err(CompileError::Unsupported);
                }
            }
            Ok(Ast::Rep(kind, atom))
        },
        crate::hir::HirTag::Concat => {
            let kids = crate::hir::hir_children(h);
            fold_children(&kids, fuel - 1, false)
        },
        crate::hir::HirTag::Alternation => {
            let kids = crate::hir::hir_children(h);
            fold_children(&kids, fuel - 1, true)
        },
    }
}

/// Bring a node's children over and nest them to the right as binary
/// concatenation or alternation.
fn fold_children(
    kids: &Vec<regex_syntax::hir::Hir>,
    fuel: u32,
    alternation: bool,
) -> (r: Result<Ast, CompileError>)
    ensures
        r matches Ok(a) ==> ast_wf(ast_view(a)),
    decreases fuel,
{
    if fuel == 0 {
        return Err(CompileError::TooDeep);
    }
    let mut converted: Vec<Ast> = Vec::new();
    let mut i: usize = 0;
    while i < kids.len()
        invariant
            i <= kids@.len(),
            fuel >= 1,
            converted@.len() == i,
            forall|j: int| 0 <= j < converted@.len() ==> ast_wf(ast_view(#[trigger] converted@[j])),
        decreases kids@.len() - i,
    {
        match hir_to_ast(&kids[i], fuel - 1) {
            Ok(a) => converted.push(a),
            Err(e) => {
                return Err(e);
            },
        }
        i += 1;
    }
    let mut acc = match converted.pop() {
        Some(a) => a,
        None => {
            return if alternation {
                Err(CompileError::Unsupported)
            } else {
                Ok(Ast::Empty)
            };
        },
    };
    while converted.len() > 0
        invariant
            ast_wf(ast_view(acc)),
            forall|j: int| 0 <= j < converted@.len() ==> ast_wf(ast_view(#[trigger] converted@[j])),
        decreases converted@.len(),
    {
        let x = match converted.pop() {
            Some(x) => x,
            None => {
                proof {
                    assert(false);
                }
                Ast::Empty
            },
        };
        acc = if alternation {
            Ast::Alt(Box::new(x), Box::new(acc))
        } else {
            Ast::Concat(Box::new(x), Box::new(acc))
        };
    }
    Ok(acc)
}

/// The compiler: from a pattern string to a flat program.
pub struct Compiler {}

impl Compiler {
    /// Compile a pattern to a program.
    ///
    /// The pattern is parsed by the outside parser, brought into the
    /// library's syntax tree and emitted.  On success the program is
    /// exactly the emission of a well-formed tree, and is itself well
    /// formed, so it can be handed to a machine.  Errors: `Parse` when the
    /// pattern does not parse, `Unsupported` for a feature outside the
    /// supported surface, `TooDeep` and `TooLarge` for the compiler's
    /// budgets.
    pub fn compile(pattern: &str) -> (r: Result<Program, CompileError>)
        ensures
            r matches Ok(p) ==> program_wf(prog_view(p@)) && exists|a: AstV|
                ast_wf(a) && #[trigger] emit_spec(a, 0) == prog_view(p@),
    {
        let hir = match crate::hir::parse_pattern(pattern) {
            Ok(h) => h,
            Err(_) => {
                return Err(CompileError::Parse);
            },
        };
        let ast = match hir_to_ast(&hir, 0xffff_ffff) {
            Ok(a) => a,
            Err(e) => {
                return Err(e);
            },
        };
        let r = compile_ast(&ast);
        proof {
            if r is Ok {
                assert(emit_spec(ast_view(ast), 0) == prog_view(r->Ok_0@));
            }
        }
        r
    }
}

} // verus!
