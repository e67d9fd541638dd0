use tfhe_regex::compiler::{compile_ast, Ast, Atom, CompileError, Compiler, RepKind};
use tfhe_regex::program::{Action, ByteRange, Instruction, IntervalCharOptions, ProgramItem};

fn item(instruction: Instruction, next: usize, offset: i32) -> ProgramItem {
    ProgramItem { instruction, action: Action { next, offset } }
}

#[test]
fn literals_emit_consuming_chars() {
    let program = Compiler::compile(r"ab").unwrap();
    assert_eq!(
        program,
        vec![item(Instruction::Char(b'a'), 1, 1), item(Instruction::Char(b'b'), 2, 1)],
    );
}

#[test]
fn anchors_emit_start_and_match() {
    let program = Compiler::compile(r"^a$").unwrap();
    assert_eq!(
        program,
        vec![
            item(Instruction::Start, 1, 0),
            item(Instruction::Char(b'a'), 2, 1),
            item(Instruction::Match, 3, 0),
        ],
    );
}

#[test]
fn alternation_emits_branch_and_jump() {
    let program = Compiler::compile(r"a|b").unwrap();
    assert_eq!(
        program,
        vec![
            item(Instruction::Branch(3), 1, 0),
            item(Instruction::Char(b'a'), 2, 1),
            item(Instruction::Jump(4), 0, 0),
            item(Instruction::Char(b'b'), 4, 1),
        ],
    );
}

#[test]
fn quantifiers_unroll_as_specified() {
    assert_eq!(
        Compiler::compile(r"a*").unwrap(),
        vec![item(Instruction::Repetition(b'a'), 1, 1)],
    );
    assert_eq!(
        Compiler::compile(r"a+").unwrap(),
        vec![item(Instruction::Char(b'a'), 1, 1), item(Instruction::Repetition(b'a'), 2, 1)],
    );
    assert_eq!(
        Compiler::compile(r"a?").unwrap(),
        vec![item(Instruction::OptionalChar(b'a'), 1, 1)],
    );
    assert_eq!(
        Compiler::compile(r"a{2,4}").unwrap(),
        vec![
            item(Instruction::Char(b'a'), 1, 1),
            item(Instruction::Char(b'a'), 2, 1),
            item(Instruction::OptionalChar(b'a'), 3, 1),
            item(Instruction::OptionalChar(b'a'), 4, 1),
        ],
    );
    assert_eq!(
        Compiler::compile(r"a{3,}").unwrap(),
        vec![
            item(Instruction::Char(b'a'), 1, 1),
            item(Instruction::Char(b'a'), 2, 1),
            item(Instruction::Char(b'a'), 3, 1),
            item(Instruction::Repetition(b'a'), 4, 1),
        ],
    );
}

#[test]
fn group_around_an_atom_is_transparent() {
    assert_eq!(
        Compiler::compile(r"(a){2}").unwrap(),
        vec![item(Instruction::Char(b'a'), 1, 1), item(Instruction::Char(b'a'), 2, 1)],
    );
}

#[test]
fn classes_carry_their_byte_ranges() {
    let program = Compiler::compile(r"[b-e]").unwrap();
    assert_eq!(
        program,
        vec![item(
            Instruction::IntervalChar(IntervalCharOptions {
                range: vec![ByteRange { start: b'b', end: b'e' }],
                can_repeat: false,
                is_optional: false,
            }),
            1,
            1,
        )],
    );
}

#[test]
fn any_character_class_is_clamped_to_bytes() {
    let program = Compiler::compile(r".").unwrap();
    assert_eq!(
        program,
        vec![item(
            Instruction::IntervalChar(IntervalCharOptions {
                range: vec![
                    ByteRange { start: 0, end: 9 },
                    ByteRange { start: 11, end: 255 },
                ],
                can_repeat: false,
                is_optional: false,
            }),
            1,
            1,
        )],
    );
}

#[test]
fn malformed_pattern_is_a_parse_error() {
    assert_eq!(Compiler::compile(r"("), Err(CompileError::Parse));
}

#[test]
fn word_boundary_is_unsupported() {
    assert_eq!(Compiler::compile(r"a\b"), Err(CompileError::Unsupported));
}

#[test]
fn line_anchor_is_unsupported() {
    assert_eq!(Compiler::compile(r"(?m)^a"), Err(CompileError::Unsupported));
}

#[test]
fn quantifier_over_a_group_is_unsupported() {
    assert_eq!(Compiler::compile(r"(ab){2}"), Err(CompileError::Unsupported));
}

#[test]
fn class_beyond_one_byte_is_unsupported() {
    assert_eq!(Compiler::compile(r"[\u{300}-\u{400}]"), Err(CompileError::Unsupported));
}

#[test]
fn literal_beyond_one_byte_is_unsupported() {
    assert_eq!(Compiler::compile(r"^\x{2603}$"), Err(CompileError::Unsupported));
}

#[test]
fn oversized_program_is_rejected() {
    let ast = Ast::Rep(RepKind::Exactly(u32::MAX), Atom::Byte(b'a'));
    assert_eq!(compile_ast(&ast), Err(CompileError::TooLarge));
}

#[test]
fn compile_ast_emits_an_alternation() {
    let ast = Ast::Alt(Box::new(Ast::Byte(b'a')), Box::new(Ast::Byte(b'b')));
    assert_eq!(
        compile_ast(&ast).unwrap(),
        vec![
            item(Instruction::Branch(3), 1, 0),
            item(Instruction::Char(b'a'), 2, 1),
            item(Instruction::Jump(4), 0, 0),
            item(Instruction::Char(b'b'), 4, 1),
        ],
    );
}

#[test]
fn compile_ast_emits_the_empty_pattern_as_match() {
    assert_eq!(compile_ast(&Ast::Empty).unwrap(), vec![item(Instruction::Match, 1, 0)]);
}
