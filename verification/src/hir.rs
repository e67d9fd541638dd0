//! The trusted boundary to the pattern parser.
//!
//! Parsing a pattern and reading the resulting syntax tree is the parser
//! crate's job; everything here either declares its types or inspects one
//! node of its tree and hands the result over as a plain value.  Each
//! wrapper's doc comment names the outside item relied on.  The tree itself
//! is opaque to verification, so none of these carries a contract; what the
//! library guarantees starts at the syntax tree the converter builds from
//! these values (`compiler::Ast`).

use vstd::prelude::*;

use crate::compiler::RepKind;
use regex_syntax::hir::{Anchor, Class, Hir, HirKind, Literal, RepetitionKind, RepetitionRange};

verus! {

#[verifier::external_type_specification]
#[verifier::external_body]
pub struct ExHir(regex_syntax::hir::Hir);

#[verifier::external_type_specification]
#[verifier::external_body]
pub struct ExRegexError(regex_syntax::Error);

/// Which syntax form a parsed node is.
#[derive(Clone, Copy, Debug)]
pub enum HirTag {
    Empty,
    Literal,
    Class,
    Anchor,
    WordBoundary,
    Repetition,
    Group,
    Concat,
    Alternation,
}

/// Which anchor a parsed anchor node is; line anchors are kept apart so the
/// compiler can reject them.
#[derive(Clone, Copy, Debug)]
pub enum AnchorKind {
    TextStart,
    TextEnd,
    Line,
}

/// Relies on regex_syntax::Parser::parse: the pattern's parsed tree, or the
/// parser's error.
#[verifier::external_body]
pub(crate) fn parse_pattern(pattern: &str) -> Result<Hir, regex_syntax::Error> {
    regex_syntax::Parser::new().parse(pattern)
}

/// Relies on regex_syntax::hir::Hir::kind: which syntax form the node is.
#[verifier::external_body]
pub(crate) fn hir_tag(h: &Hir) -> HirTag {
    match h.kind() {
        HirKind::Empty => HirTag::Empty,
        HirKind::Literal(_) => HirTag::Literal,
        HirKind::Class(_) => HirTag::Class,
        HirKind::Anchor(_) => HirTag::Anchor,
        HirKind::WordBoundary(_) => HirTag::WordBoundary,
        HirKind::Repetition(_) => HirTag::Repetition,
        HirKind::Group(_) => HirTag::Group,
        HirKind::Concat(_) => HirTag::Concat,
        HirKind::Alternation(_) => HirTag::Alternation,
    }
}

/// Relies on regex_syntax::hir::Literal: the literal's code point or byte
/// value; 0 for any other node.
#[verifier::external_body]
pub(crate) fn hir_literal_value(h: &Hir) -> u32 {
    match h.kind() {
        HirKind::Literal(Literal::Unicode(c)) => *c as u32,
        HirKind::Literal(Literal::Byte(b)) => *b as u32,
        _ => 0,
    }
}

/// Relies on regex_syntax::hir::Class::ranges: the class's inclusive
/// ranges, as code points for a Unicode class and byte values for a byte
/// class; empty for any other node.
#[verifier::external_body]
pub(crate) fn hir_class_ranges(h: &Hir) -> Vec<(u32, u32)> {
    match h.kind() {
        HirKind::Class(Class::Unicode(set)) => {
            set.ranges().iter().map(|r| (r.start() as u32, r.end() as u32)).collect()
        },
        HirKind::Class(Class::Bytes(set)) => {
            set.ranges().iter().map(|r| (r.start() as u32, r.end() as u32)).collect()
        },
        _ => Vec::new(),
    }
}

/// Relies on regex_syntax::hir::Anchor: which anchor the node is; `None`
/// for any other node.
#[verifier::external_body]
pub(crate) fn hir_anchor_kind(h: &Hir) -> Option<AnchorKind> {
    match h.kind() {
        HirKind::Anchor(Anchor::StartText) => Some(AnchorKind::TextStart),
        HirKind::Anchor(Anchor::EndText) => Some(AnchorKind::TextEnd),
        HirKind::Anchor(_) => Some(AnchorKind::Line),
        _ => None,
    }
}

/// Relies on regex_syntax::hir::RepetitionKind: the quantifier's shape,
/// mapped variant for variant; `None` for any other node.
#[verifier::external_body]
pub(crate) fn hir_rep_kind(h: &Hir) -> Option<RepKind> {
    match h.kind() {
        HirKind::Repetition(rep) => Some(match rep.kind.clone() {
            RepetitionKind::ZeroOrOne => RepKind::ZeroOrOne,
            RepetitionKind::ZeroOrMore => RepKind::ZeroOrMore,
            RepetitionKind::OneOrMore => RepKind::OneOrMore,
            RepetitionKind::Range(RepetitionRange::Exactly(n)) => RepKind::Exactly(n),
            RepetitionKind::Range(RepetitionRange::AtLeast(n)) => RepKind::AtLeast(n),
            RepetitionKind::Range(RepetitionRange::Bounded(m, n)) => RepKind::Bounded(m, n),
        }),
        _ => None,
    }
}

/// Relies on regex_syntax::hir::HirKind: the node's children, cloned out of
/// the tree; the subexpression of a group or quantifier is the only child
/// of its node.
#[verifier::external_body]
pub(crate) fn hir_children(h: &Hir) -> Vec<Hir> {
    match h.kind() {
        HirKind::Concat(xs) => xs.clone(),
        HirKind::Alternation(xs) => xs.clone(),
        HirKind::Group(g) => vec![(*g.hir).clone()],
        HirKind::Repetition(r) => vec![(*r.hir).clone()],
        _ => Vec::new(),
    }
}

} // verus!
