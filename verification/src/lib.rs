//! A regular-expression engine whose matcher can run over inputs encrypted
//! under a fully-homomorphic encryption scheme.
//!
//! The pipeline has three stages:
//! * a compiler that lowers a parsed pattern into a flat program of
//!   micro-instructions (`compiler`),
//! * a builder that replaces every plaintext literal of such a program by an
//!   encrypted one while keeping the control flow bit-exact (`program`),
//! * two virtual machines that interpret a program against an input: one over
//!   plain bytes (`machine`) and one over encrypted bytes, where every
//!   character test is a homomorphic comparison reduced to a plaintext
//!   boolean by a decision oracle (`tfhe_machine`).
//!
//! Both machines are verified against the same small-step semantics
//! (`machine::step`), so a run over ciphertexts provably returns the same
//! boolean as a run over the bytes they encrypt.

pub mod compiler;
pub mod encoding;
pub mod fhe;
pub mod hir;
pub mod laws;
pub mod machine;
pub mod program;
pub mod tfhe_machine;

pub use encoding::{convert_str_to_cts, EncodedCipher2bits, EncodedCipher4bits, EncodedCipherTrait};
pub use fhe::{gen_keys, ClientKeyHandle, LimbCt, LimbWidth, ServerKeyHandle};
