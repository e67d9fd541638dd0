//! The flat bytecode that the compiler emits and the machines interpret.
//!
//! A program is an ordered sequence of instructions indexed by a program
//! counter starting at 0.  Each instruction carries an [`Action`]: `next` is
//! the continuation state reported when the instruction acts, and `offset`
//! the input-position delta applied on a successful consume (1 for
//! byte-consuming instructions, 0 for control instructions).

use vstd::prelude::*;

use crate::encoding::EncodedCipherTrait;
use crate::fhe::ClientKeyHandle;

verus! {

/// Control data carried by every instruction.
#[derive(Default, Clone, Copy, Debug, PartialEq, Eq, Structural)]
pub struct Action {
    pub next: usize,
    pub offset: i32,
}

/// An inclusive range of byte values, used by `IntervalChar`.
///
/// Invariant (established by the compiler): `start <= end`.
#[derive(Clone, Copy, Debug, PartialEq, Eq, Structural)]
pub struct ByteRange {
    pub start: u8,
    pub end: u8,
}

impl ByteRange {
    /// Whether byte `b` lies inside this inclusive range.
    pub open spec fn holds(self, b: u8) -> bool {
        self.start <= b <= self.end
    }
}

/// The ranges of a character class together with its collapsed quantifier
/// attributes: `can_repeat` for `+`/`*`, `is_optional` for `?` or the tail
/// of a bounded repetition; both false means an exact single match.
#[derive(Clone, Debug, PartialEq)]
pub struct IntervalCharOptions {
    pub range: Vec<ByteRange>,
    pub can_repeat: bool,
    pub is_optional: bool,
}

/// One micro-instruction of the matcher.
#[derive(Clone, Debug, PartialEq)]
pub enum Instruction {
    /// Consume one input byte; it must equal the literal.
    Char(u8),
    /// Anchor to the end of the input: succeed iff it is fully consumed.
    Match,
    /// Anchor to position 0: latch exact-match mode.
    Start,
    /// Zero-or-more consumes of the literal.
    Repetition(u8),
    /// Optionally consume one byte equal to the literal.
    OptionalChar(u8),
    /// Consume one byte lying in any of the given inclusive ranges.
    IntervalChar(IntervalCharOptions),
    /// Push `(target, current position)` onto the backtrack stack.
    Branch(usize),
    /// Unconditional transfer of the program counter.
    Jump(usize),
}

/// One program entry: an instruction and its control data.
#[derive(Clone, Debug, PartialEq)]
pub struct ProgramItem {
    pub instruction: Instruction,
    pub action: Action,
}

/// A complete matcher program.
pub type Program = Vec<ProgramItem>;

/// Whether byte `b` lies inside some range of a class.
pub open spec fn in_ranges(rs: Seq<ByteRange>, b: u8) -> bool {
    exists|i: int| 0 <= i < rs.len() && (#[trigger] rs[i]).holds(b)
}

/// Whether every range of a class is well formed.
pub open spec fn ranges_wf(rs: Seq<ByteRange>) -> bool {
    forall|i: int| 0 <= i < rs.len() ==> #[trigger] rs[i].start <= rs[i].end
}

/// The mathematical form of an instruction: class ranges as a sequence.
/// Both the plaintext program and the cipher program map into this form, so
/// one semantics covers both machines.
pub enum InstrV {
    Char(u8),
    Match,
    Start,
    Repetition(u8),
    OptionalChar(u8),
    IntervalChar { ranges: Seq<ByteRange>, can_repeat: bool, is_optional: bool },
    Branch(int),
    Jump(int),
}

/// The mathematical form of one program entry.
pub struct ItemV {
    pub instr: InstrV,
    pub next: int,
    pub offset: int,
}

/// The mathematical form of a plaintext instruction.
pub open spec fn instr_view(i: Instruction) -> InstrV {
    match i {
        Instruction::Char(c) => InstrV::Char(c),
        Instruction::Match => InstrV::Match,
        Instruction::Start => InstrV::Start,
        Instruction::Repetition(c) => InstrV::Repetition(c),
        Instruction::OptionalChar(c) => InstrV::OptionalChar(c),
        Instruction::IntervalChar(opts) => InstrV::IntervalChar {
            ranges: opts.range@,
            can_repeat: opts.can_repeat,
            is_optional: opts.is_optional,
        },
        Instruction::Branch(t) => InstrV::Branch(t as int),
        Instruction::Jump(t) => InstrV::Jump(t as int),
    }
}

/// The mathematical form of one plaintext program entry.
pub open spec fn item_view(pi: ProgramItem) -> ItemV {
    ItemV {
        instr: instr_view(pi.instruction),
        next: pi.action.next as int,
        offset: pi.action.offset as int,
    }
}

/// The mathematical form of a whole plaintext program.
pub open spec fn prog_view(p: Seq<ProgramItem>) -> Seq<ItemV> {
    p.map_values(|pi: ProgramItem| item_view(pi))
}

/// Well-formedness of one program entry within a program of length `n`:
/// control targets stay within the program (a target equal to `n` means
/// "past the end", which accepts), and the offset is 0 or 1.
pub open spec fn item_wf(pi: ItemV, n: nat) -> bool {
    &&& 0 <= pi.next <= n
    &&& 0 <= pi.offset <= 1
    &&& match pi.instr {
        InstrV::Branch(t) => 0 <= t <= n,
        InstrV::Jump(t) => 0 <= t <= n,
        InstrV::IntervalChar { ranges, .. } => ranges_wf(ranges),
        _ => true,
    }
}

/// Well-formedness of a whole program; the compiler establishes it and the
/// cipher-program builder preserves it.
pub open spec fn program_wf(p: Seq<ItemV>) -> bool {
    forall|i: int| 0 <= i < p.len() ==> #[trigger] item_wf(p[i], p.len())
}

/// A pair of encrypted byte endpoints, inclusive; used by the encrypted
/// form of `IntervalChar`.  Invariant (from the compiler, preserved by the
/// builder): the start's byte is at most the end's.
pub struct CiphertextRange<T> {
    pub start: T,
    pub end: T,
}

/// The encrypted form of a class's ranges with its quantifier attributes.
pub struct CipherIntervalCharOptions<T> {
    pub range: Vec<CiphertextRange<T>>,
    pub can_repeat: bool,
    pub is_optional: bool,
}

/// One micro-instruction with its byte literals encrypted.
pub enum CipherInstruction<T> {
    CipherChar(T),
    Match,
    Start,
    CipherRepetition(T),
    CipherOptionalChar(T),
    CipherIntervalChar(CipherIntervalCharOptions<T>),
    Branch(usize),
    Jump(usize),
}

/// One encrypted program entry: the control data is kept in the clear.
pub struct CipherProgramItem<T> {
    pub instruction: CipherInstruction<T>,
    pub action: Action,
}

/// A complete matcher program over ciphertext literals.
pub type CipherProgram<T> = Vec<CipherProgramItem<T>>;

/// The byte range an encrypted range stands for.
pub open spec fn cipher_range_view<T: EncodedCipherTrait>(r: CiphertextRange<T>) -> ByteRange {
    ByteRange { start: r.start.byte_val() as u8, end: r.end.byte_val() as u8 }
}

/// The byte ranges an encrypted class stands for.
pub open spec fn cipher_ranges_view<T: EncodedCipherTrait>(rs: Seq<CiphertextRange<T>>) -> Seq<
    ByteRange,
> {
    rs.map_values(|r: CiphertextRange<T>| cipher_range_view(r))
}

/// The mathematical form of an encrypted instruction: the instruction over
/// the bytes its ciphertexts encrypt.
pub open spec fn cipher_instr_view<T: EncodedCipherTrait>(i: CipherInstruction<T>) -> InstrV {
    match i {
        CipherInstruction::CipherChar(ct) => InstrV::Char(ct.byte_val() as u8),
        CipherInstruction::Match => InstrV::Match,
        CipherInstruction::Start => InstrV::Start,
        CipherInstruction::CipherRepetition(ct) => InstrV::Repetition(ct.byte_val() as u8),
        CipherInstruction::CipherOptionalChar(ct) => InstrV::OptionalChar(ct.byte_val() as u8),
        CipherInstruction::CipherIntervalChar(opts) => InstrV::IntervalChar {
            ranges: cipher_ranges_view(opts.range@),
            can_repeat: opts.can_repeat,
            is_optional: opts.is_optional,
        },
        CipherInstruction::Branch(t) => InstrV::Branch(t as int),
        CipherInstruction::Jump(t) => InstrV::Jump(t as int),
    }
}

/// The mathematical form of one encrypted program entry.
pub open spec fn cipher_item_view<T: EncodedCipherTrait>(pi: CipherProgramItem<T>) -> ItemV {
    ItemV {
        instr: cipher_instr_view(pi.instruction),
        next: pi.action.next as int,
        offset: pi.action.offset as int,
    }
}

/// The mathematical form of a whole encrypted program: the plaintext
/// program it stands for.
pub open spec fn cipher_prog_view<T: EncodedCipherTrait>(p: Seq<CipherProgramItem<T>>) -> Seq<
    ItemV,
> {
    p.map_values(|pi: CipherProgramItem<T>| cipher_item_view(pi))
}

/// Validity of the ciphertexts in one encrypted instruction: each is well
/// formed and belongs to the key pair `key`.
pub open spec fn cipher_instr_wf<T: EncodedCipherTrait>(i: CipherInstruction<T>, key: int) -> bool {
    match i {
        CipherInstruction::CipherChar(ct) => ct.wf() && ct.key_id() == key,
        CipherInstruction::CipherRepetition(ct) => ct.wf() && ct.key_id() == key,
        CipherInstruction::CipherOptionalChar(ct) => ct.wf() && ct.key_id() == key,
        CipherInstruction::CipherIntervalChar(opts) => forall|k: int|
            0 <= k < opts.range@.len() ==> {
                &&& (#[trigger] opts.range@[k]).start.wf()
                &&& opts.range@[k].end.wf()
                &&& opts.range@[k].start.key_id() == key
                &&& opts.range@[k].end.key_id() == key
            },
        _ => true,
    }
}

/// Validity of the ciphertexts in a whole encrypted program.
pub open spec fn cipher_prog_wf<T: EncodedCipherTrait>(
    p: Seq<CipherProgramItem<T>>,
    key: int,
) -> bool {
    forall|i: int| 0 <= i < p.len() ==> cipher_instr_wf((#[trigger] p[i]).instruction, key)
}

/// Encrypt the byte ranges of one class under `client_key`.
fn cipher_ranges<T: EncodedCipherTrait>(
    client_key: &ClientKeyHandle,
    rs: &Vec<ByteRange>,
) -> (r: Vec<CiphertextRange<T>>)
    requires
        client_key.space() == T::space_needed(),
    ensures
        cipher_ranges_view(r@) == rs@,
        forall|k: int|
            0 <= k < r@.len() ==> {
                &&& (#[trigger] r@[k]).start.wf()
                &&& r@[k].end.wf()
                &&& r@[k].start.key_id() == client_key.id()
                &&& r@[k].end.key_id() == client_key.id()
            },
{
    let mut out: Vec<CiphertextRange<T>> = Vec::new();
    let mut k: usize = 0;
    while k < rs.len()
        invariant
            client_key.space() == T::space_needed(),
            k <= rs@.len(),
            out@.len() == k,
            forall|j: int| 0 <= j < k ==> cipher_range_view(#[trigger] out@[j]) == rs@[j],
            forall|j: int|
                0 <= j < k ==> {
                    &&& (#[trigger] out@[j]).start.wf()
                    &&& out@[j].end.wf()
                    &&& out@[j].start.key_id() == client_key.id()
                    &&& out@[j].end.key_id() == client_key.id()
                },
        decreases rs@.len() - k,
    {
        let br = rs[k];
        let start_ct = T::encrypt(client_key, br.start);
        let end_ct = T::encrypt(client_key, br.end);
        out.push(CiphertextRange { start: start_ct, end: end_ct });
        k += 1;
    }
    proof {
        assert(cipher_ranges_view(out@) =~= rs@);
    }
    out
}

/// Encrypt the literals of one program entry under `client_key`, keeping
/// its control data as it stands.
fn cipher_program_item<T: EncodedCipherTrait>(
    client_key: &ClientKeyHandle,
    program_item: &ProgramItem,
) -> (r: CipherProgramItem<T>)
    requires
        client_key.space() == T::space_needed(),
    ensures
        cipher_item_view(r) == item_view(*program_item),
        cipher_instr_wf(r.instruction, client_key.id()),
{
    let instruction: CipherInstruction<T> = match &program_item.instruction {
        Instruction::Char(c) => CipherInstruction::CipherChar(T::encrypt(client_key, *c)),
        Instruction::Match => CipherInstruction::Match,
        Instruction::Start => CipherInstruction::Start,
        Instruction::Repetition(c) => CipherInstruction::CipherRepetition(
            T::encrypt(client_key, *c),
        ),
        Instruction::OptionalChar(c) => CipherInstruction::CipherOptionalChar(
            T::encrypt(client_key, *c),
        ),
        Instruction::IntervalChar(opts) => CipherInstruction::CipherIntervalChar(
            CipherIntervalCharOptions {
                range: cipher_ranges(client_key, &opts.range),
                can_repeat: opts.can_repeat,
                is_optional: opts.is_optional,
            },
        ),
        Instruction::Branch(pc) => CipherInstruction::Branch(*pc),
        Instruction::Jump(pc) => CipherInstruction::Jump(*pc),
    };
    CipherProgramItem { instruction, action: program_item.action }
}

/// Encrypt every literal byte and range endpoint of a program under the
/// client key.  The result stands for exactly the same program: its
/// mathematical form equals the source program's, so control flow and all
/// actions are preserved bit-exact, and every ciphertext in it belongs to
/// the client key's pair.
pub fn cipher_program<T: EncodedCipherTrait>(
    client_key: &ClientKeyHandle,
    program: Program,
) -> (r: CipherProgram<T>)
    requires
        client_key.space() == T::space_needed(),
    ensures
        cipher_prog_view(r@) == prog_view(program@),
        cipher_prog_wf(r@, client_key.id()),
{
    let mut out: Vec<CipherProgramItem<T>> = Vec::new();
    let mut i: usize = 0;
    while i < program.len()
        invariant
            client_key.space() == T::space_needed(),
            i <= program@.len(),
            out@.len() == i,
            forall|j: int|
                0 <= j < i ==> cipher_item_view(#[trigger] out@[j]) == item_view(program@[j]),
            forall|j: int|
                0 <= j < i ==> cipher_instr_wf((#[trigger] out@[j]).instruction, client_key.id()),
        decreases program@.len() - i,
    {
        let item = cipher_program_item(client_key, &program[i]);
        out.push(item);
        i += 1;
    }
    proof {
        assert(cipher_prog_view(out@) =~= prog_view(program@));
    }
    out
}

} // verus!
