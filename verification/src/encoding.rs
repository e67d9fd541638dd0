//! Limb-decomposed encodings of a byte.
//!
//! A byte is split into limbs small enough for the back-end's message
//! space — two four-bit limbs, or four two-bit limbs — and each limb is
//! encrypted on its own.  Equality of two encoded bytes is the product of
//! the per-limb equalities; order is a lexicographic fold from the most
//! significant limb down, with partial sums clamped back to 0 or 1 where
//! the two-bit space requires it.  The lemmas here are the arithmetic core:
//! splitting and recomposing a byte round-trips, and the limb-wise
//! comparisons agree with the byte comparisons.

use vstd::prelude::*;
use vstd::string::StringSliceAdditionalSpecFns;

use crate::fhe::{
    add_limb, decrypt_limb, encrypt_limb, eq_limb, ge_limb, ge_one_limb, gt_limb, le_limb,
    lt_limb, mul_limb, ClientKeyHandle, LimbCt, ServerKeyHandle,
};

verus! {

/// The capability set of an encoded byte ciphertext: encrypt, decrypt, and
/// the three homomorphic comparisons returning a boolean ciphertext
/// (an encryption of 1 for true, 0 for false).  The key pair's message
/// space must equal the encoding's limb space exactly: the widths chosen at
/// key generation and at encoding must agree.
pub trait EncodedCipherTrait: Sized {
    /// The per-limb message space this encoding requires of its key pair;
    /// the key's space must equal it.
    spec fn space_needed() -> nat;

    /// The identity of the key pair this value belongs to.
    spec fn key_id(&self) -> int;

    /// The byte this value encrypts.
    spec fn byte_val(&self) -> nat;

    /// Validity: every limb is within the encoding's limb domain and all
    /// limbs belong to one key pair.
    spec fn wf(&self) -> bool;

    /// A well-formed value encrypts a byte.
    proof fn lemma_wf_byte(&self)
        requires
            self.wf(),
        ensures
            self.byte_val() < 256,
    ;

    /// Every encoding needs room for at least a boolean result per limb.
    proof fn lemma_space_needed()
        ensures
            Self::space_needed() >= 2,
    ;

    /// Split a byte into limbs and encrypt each under `client_key`.
    fn encrypt(client_key: &ClientKeyHandle, c: u8) -> (r: Self)
        requires
            client_key.space() == Self::space_needed(),
        ensures
            r.wf(),
            r.key_id() == client_key.id(),
            r.byte_val() == c,
    ;

    /// Decrypt each limb and recompose the byte.
    fn decrypt(self, client_key: &ClientKeyHandle) -> (r: u8)
        requires
            self.wf(),
            self.key_id() == client_key.id(),
            client_key.space() == Self::space_needed(),
        ensures
            r == self.byte_val(),
    ;

    /// Homomorphic equality of the encrypted bytes.
    fn equal(&self, server_key: &ServerKeyHandle, rhs: &Self) -> (r: LimbCt)
        requires
            self.wf(),
            rhs.wf(),
            self.key_id() == server_key.id(),
            rhs.key_id() == server_key.id(),
            server_key.space() == Self::space_needed(),
        ensures
            r.key_id() == server_key.id(),
            r.val() <= 1,
            r.val() <= r.deg(),
            r.deg() < server_key.space() * server_key.space(),
            r.val() == (if self.byte_val() == rhs.byte_val() {
                1nat
            } else {
                0nat
            }),
    ;

    /// Homomorphic byte order: is the encrypted byte at least the right's?
    fn greater_or_equal(&self, server_key: &ServerKeyHandle, rhs: &Self) -> (r: LimbCt)
        requires
            self.wf(),
            rhs.wf(),
            self.key_id() == server_key.id(),
            rhs.key_id() == server_key.id(),
            server_key.space() == Self::space_needed(),
        ensures
            r.key_id() == server_key.id(),
            r.val() <= 1,
            r.val() <= r.deg(),
            r.deg() < server_key.space() * server_key.space(),
            r.val() == (if self.byte_val() >= rhs.byte_val() {
                1nat
            } else {
                0nat
            }),
    ;

    /// Homomorphic byte order: is the encrypted byte at most the right's?
    fn less_or_equal(&self, server_key: &ServerKeyHandle, rhs: &Self) -> (r: LimbCt)
        requires
            self.wf(),
            rhs.wf(),
            self.key_id() == server_key.id(),
            rhs.key_id() == server_key.id(),
            server_key.space() == Self::space_needed(),
        ensures
            r.key_id() == server_key.id(),
            r.val() <= 1,
            r.val() <= r.deg(),
            r.deg() < server_key.space() * server_key.space(),
            r.val() == (if self.byte_val() <= rhs.byte_val() {
                1nat
            } else {
                0nat
            }),
    ;
}

/// A byte's four-bit limbs are in range and recompose to the byte: the
/// round-trip core of the four-bit encoding.
pub proof fn lemma_split4(c: u8)
    ensures
        ((c >> 4) & 0x0F) < 16,
        (c & 0x0F) < 16,
        ((c >> 4) & 0x0F) * 16 + (c & 0x0F) == c,
{
    assert(((c >> 4) & 0x0F) < 16 && (c & 0x0F) < 16 && ((c >> 4) & 0x0F) * 16 + (c & 0x0F)
        == c) by (bit_vector);
}

/// Recomposing four-bit limbs by shift and mask gives their weighted sum.
pub proof fn lemma_assemble4(u: u8, l: u8)
    requires
        u < 16,
        l < 16,
    ensures
        (((u & 0x0F) << 4) | (l & 0x0F)) == u * 16 + l,
{
    assert((((u & 0x0F) << 4) | (l & 0x0F)) == u * 16 + l) by (bit_vector)
        requires
            u < 16,
            l < 16,
    ;
}

/// A byte's two-bit limbs are in range and recompose to the byte: the
/// round-trip core of the two-bit encoding.
pub proof fn lemma_split2(c: u8)
    ensures
        ((c >> 6) & 0x03) < 4,
        ((c >> 4) & 0x03) < 4,
        ((c >> 2) & 0x03) < 4,
        (c & 0x03) < 4,
        ((c >> 6) & 0x03) * 64 + ((c >> 4) & 0x03) * 16 + ((c >> 2) & 0x03) * 4 + (c & 0x03) == c,
{
    assert(((c >> 6) & 0x03) < 4 && ((c >> 4) & 0x03) < 4 && ((c >> 2) & 0x03) < 4 && (c & 0x03)
        < 4 && ((c >> 6) & 0x03) * 64 + ((c >> 4) & 0x03) * 16 + ((c >> 2) & 0x03) * 4 + (c
        & 0x03) == c) by (bit_vector);
}

/// Recomposing two-bit limbs by shift and mask gives their weighted sum.
pub proof fn lemma_assemble2(i: u8, j: u8, k: u8, l: u8)
    requires
        i < 4,
        j < 4,
        k < 4,
        l < 4,
    ensures
        (((i & 0x03) << 6) | ((j & 0x03) << 4) | ((k & 0x03) << 2) | (l & 0x03)) == i * 64 + j * 16
            + k * 4 + l,
{
    assert((((i & 0x03) << 6) | ((j & 0x03) << 4) | ((k & 0x03) << 2) | (l & 0x03)) == i * 64 + j
        * 16 + k * 4 + l) by (bit_vector)
        requires
            i < 4,
            j < 4,
            k < 4,
            l < 4,
    ;
}

/// Two bytes agree exactly when their four-bit limbs agree.
pub proof fn lemma_byte_eq4(au: nat, al: nat, bu: nat, bl: nat)
    requires
        au < 16,
        al < 16,
        bu < 16,
        bl < 16,
    ensures
        (au * 16 + al == bu * 16 + bl) <==> (au == bu && al == bl),
{
}

/// Byte order is lexicographic order of the four-bit limbs.
pub proof fn lemma_byte_ge4(au: nat, al: nat, bu: nat, bl: nat)
    requires
        au < 16,
        al < 16,
        bu < 16,
        bl < 16,
    ensures
        (au * 16 + al >= bu * 16 + bl) <==> (au > bu || (au == bu && al >= bl)),
{
}

/// Two bytes agree exactly when their two-bit limbs agree.
pub proof fn lemma_byte_eq2(ai: nat, aj: nat, ak: nat, al: nat, bi: nat, bj: nat, bk: nat, bl: nat)
    requires
        ai < 4,
        aj < 4,
        ak < 4,
        al < 4,
        bi < 4,
        bj < 4,
        bk < 4,
        bl < 4,
    ensures
        (ai * 64 + aj * 16 + ak * 4 + al == bi * 64 + bj * 16 + bk * 4 + bl) <==> (ai == bi && aj
            == bj && ak == bk && al == bl),
{
}

/// Byte order is lexicographic order of the two-bit limbs.
pub proof fn lemma_byte_ge2(ai: nat, aj: nat, ak: nat, al: nat, bi: nat, bj: nat, bk: nat, bl: nat)
    requires
        ai < 4,
        aj < 4,
        ak < 4,
        al < 4,
        bi < 4,
        bj < 4,
        bk < 4,
        bl < 4,
    ensures
        (ai * 64 + aj * 16 + ak * 4 + al >= bi * 64 + bj * 16 + bk * 4 + bl) <==> (ai > bi || (ai
            == bi && (aj > bj || (aj == bj && (ak > bk || (ak == bk && al >= bl)))))),
{
}

/// A byte as two four-bit limbs, most significant first.
pub struct EncodedCipher4bits {
    upper: LimbCt,
    lower: LimbCt,
}

impl EncodedCipherTrait for EncodedCipher4bits {
    open spec fn space_needed() -> nat {
        16
    }

    closed spec fn key_id(&self) -> int {
        self.upper.key_id()
    }

    closed spec fn byte_val(&self) -> nat {
        self.upper.val() * 16 + self.lower.val()
    }

    closed spec fn wf(&self) -> bool {
        &&& self.upper.val() < 16
        &&& self.lower.val() < 16
        &&& self.upper.key_id() == self.lower.key_id()
        &&& self.upper.deg() == 15
        &&& self.lower.deg() == 15
    }

    proof fn lemma_wf_byte(&self) {
    }

    proof fn lemma_space_needed() {
    }

    fn encrypt(client_key: &ClientKeyHandle, c: u8) -> (r: Self) {
        proof {
            lemma_split4(c);
        }
        let upper = encrypt_limb(client_key, ((c >> 4) & 0x0F) as u64);
        let lower = encrypt_limb(client_key, (c & 0x0F) as u64);
        EncodedCipher4bits { upper, lower }
    }

    fn decrypt(self, client_key: &ClientKeyHandle) -> (r: u8) {
        let u = decrypt_limb(client_key, &self.upper);
        let l = decrypt_limb(client_key, &self.lower);
        proof {
            lemma_assemble4(u as u8, l as u8);
        }
        (((u as u8) & 0x0F) << 4) | ((l as u8) & 0x0F)
    }

    fn equal(&self, server_key: &ServerKeyHandle, rhs: &Self) -> (r: LimbCt) {
        let equal_lower = eq_limb(server_key, &self.lower, &rhs.lower);
        let equal_upper = eq_limb(server_key, &self.upper, &rhs.upper);
        let r = mul_limb(server_key, &equal_lower, &equal_upper);
        proof {
            lemma_byte_eq4(self.upper.val(), self.lower.val(), rhs.upper.val(), rhs.lower.val());
        }
        r
    }

    fn greater_or_equal(&self, server_key: &ServerKeyHandle, rhs: &Self) -> (r: LimbCt) {
        let result_upper = gt_limb(server_key, &self.upper, &rhs.upper);
        let equal_upper = eq_limb(server_key, &self.upper, &rhs.upper);
        let result_lower = ge_limb(server_key, &self.lower, &rhs.lower);
        let result = mul_limb(server_key, &equal_upper, &result_lower);
        let r = add_limb(server_key, &result_upper, &result);
        proof {
            lemma_byte_ge4(self.upper.val(), self.lower.val(), rhs.upper.val(), rhs.lower.val());
        }
        r
    }

    fn less_or_equal(&self, server_key: &ServerKeyHandle, rhs: &Self) -> (r: LimbCt) {
        let result_upper = lt_limb(server_key, &self.upper, &rhs.upper);
        let equal_upper = eq_limb(server_key, &self.upper, &rhs.upper);
        let result_lower = le_limb(server_key, &self.lower, &rhs.lower);
        let result = mul_limb(server_key, &equal_upper, &result_lower);
        let r = add_limb(server_key, &result_upper, &result);
        proof {
            lemma_byte_ge4(rhs.upper.val(), rhs.lower.val(), self.upper.val(), self.lower.val());
        }
        r
    }
}

/// A byte as four two-bit limbs, most significant first.
pub struct EncodedCipher2bits {
    i: LimbCt,
    j: LimbCt,
    k: LimbCt,
    l: LimbCt,
}

impl EncodedCipherTrait for EncodedCipher2bits {
    open spec fn space_needed() -> nat {
        4
    }

    closed spec fn key_id(&self) -> int {
        self.i.key_id()
    }

    closed spec fn byte_val(&self) -> nat {
        self.i.val() * 64 + self.j.val() * 16 + self.k.val() * 4 + self.l.val()
    }

    closed spec fn wf(&self) -> bool {
        &&& self.i.val() < 4
        &&& self.j.val() < 4
        &&& self.k.val() < 4
        &&& self.l.val() < 4
        &&& self.i.key_id() == self.j.key_id()
        &&& self.i.key_id() == self.k.key_id()
        &&& self.i.key_id() == self.l.key_id()
        &&& self.i.deg() == 3
        &&& self.j.deg() == 3
        &&& self.k.deg() == 3
        &&& self.l.deg() == 3
    }

    proof fn lemma_wf_byte(&self) {
    }

    proof fn lemma_space_needed() {
    }

    fn encrypt(client_key: &ClientKeyHandle, c: u8) -> (r: Self) {
        proof {
            lemma_split2(c);
        }
        let i = encrypt_limb(client_key, ((c >> 6) & 0x03) as u64);
        let j = encrypt_limb(client_key, ((c >> 4) & 0x03) as u64);
        let k = encrypt_limb(client_key, ((c >> 2) & 0x03) as u64);
        let l = encrypt_limb(client_key, (c & 0x03) as u64);
        EncodedCipher2bits { i, j, k, l }
    }

    fn decrypt(self, client_key: &ClientKeyHandle) -> (r: u8) {
        let i = decrypt_limb(client_key, &self.i);
        let j = decrypt_limb(client_key, &self.j);
        let k = decrypt_limb(client_key, &self.k);
        let l = decrypt_limb(client_key, &self.l);
        proof {
            lemma_assemble2(i as u8, j as u8, k as u8, l as u8);
        }
        (((i as u8) & 0x03) << 6) | (((j as u8) & 0x03) << 4) | (((k as u8) & 0x03) << 2) | ((
        l as u8) & 0x03)
    }

    fn equal(&self, server_key: &ServerKeyHandle, rhs: &Self) -> (r: LimbCt) {
        let result_i = eq_limb(server_key, &self.i, &rhs.i);
        let result_j = eq_limb(server_key, &self.j, &rhs.j);
        let result_k = eq_limb(server_key, &self.k, &rhs.k);
        let result_l = eq_limb(server_key, &self.l, &rhs.l);
        let result_upper = mul_limb(server_key, &result_i, &result_j);
        let result_lower = mul_limb(server_key, &result_k, &result_l);
        let r = mul_limb(server_key, &result_upper, &result_lower);
        proof {
            lemma_byte_eq2(
                self.i.val(),
                self.j.val(),
                self.k.val(),
                self.l.val(),
                rhs.i.val(),
                rhs.j.val(),
                rhs.k.val(),
                rhs.l.val(),
            );
        }
        r
    }

    fn greater_or_equal(&self, server_key: &ServerKeyHandle, rhs: &Self) -> (r: LimbCt) {
        let result_i = gt_limb(server_key, &self.i, &rhs.i);
        let result_i_equal = eq_limb(server_key, &self.i, &rhs.i);
        let result_j = gt_limb(server_key, &self.j, &rhs.j);
        let result_j_equal = eq_limb(server_key, &self.j, &rhs.j);
        let result_k = gt_limb(server_key, &self.k, &rhs.k);
        let result_k_equal = eq_limb(server_key, &self.k, &rhs.k);
        let result_l = ge_limb(server_key, &self.l, &rhs.l);

        let result = mul_limb(server_key, &result_k_equal, &result_l);
        let result = add_limb(server_key, &result_k, &result);
        let result = mul_limb(server_key, &result_j_equal, &result);
        let result = add_limb(server_key, &result_j, &result);
        let result = ge_one_limb(server_key, &result);
        let result = mul_limb(server_key, &result_i_equal, &result);
        let r = add_limb(server_key, &result_i, &result);
        proof {
            lemma_byte_ge2(
                self.i.val(),
                self.j.val(),
                self.k.val(),
                self.l.val(),
                rhs.i.val(),
                rhs.j.val(),
                rhs.k.val(),
                rhs.l.val(),
            );
        }
        r
    }

    fn less_or_equal(&self, server_key: &ServerKeyHandle, rhs: &Self) -> (r: LimbCt) {
        let result_i = lt_limb(server_key, &self.i, &rhs.i);
        let result_i_equal = eq_limb(server_key, &self.i, &rhs.i);
        let result_j = lt_limb(server_key, &self.j, &rhs.j);
        let result_j_equal = eq_limb(server_key, &self.j, &rhs.j);
        let result_k = lt_limb(server_key, &self.k, &rhs.k);
        let result_k_equal = eq_limb(server_key, &self.k, &rhs.k);
        let result_l = le_limb(server_key, &self.l, &rhs.l);

        let result = mul_limb(server_key, &result_k_equal, &result_l);
        let result = add_limb(server_key, &result_k, &result);
        let result = mul_limb(server_key, &result_j_equal, &result);
        let result = add_limb(server_key, &result_j, &result);
        let result = ge_one_limb(server_key, &result);
        let result = mul_limb(server_key, &result_i_equal, &result);
        let r = add_limb(server_key, &result_i, &result);
        proof {
            lemma_byte_ge2(
                rhs.i.val(),
                rhs.j.val(),
                rhs.k.val(),
                rhs.l.val(),
                self.i.val(),
                self.j.val(),
                self.k.val(),
                self.l.val(),
            );
        }
        r
    }
}

/// Encrypt every byte of an input string, in order, under `client_key`.
pub fn convert_str_to_cts<T: EncodedCipherTrait>(input: &str, client_key: &ClientKeyHandle) -> (r:
    Vec<T>)
    requires
        client_key.space() == T::space_needed(),
    ensures
        r@.len() == input.spec_bytes().len(),
        forall|idx: int|
            0 <= idx < r@.len() ==> {
                &&& (#[trigger] r@[idx]).wf()
                &&& r@[idx].key_id() == client_key.id()
                &&& r@[idx].byte_val() == input.spec_bytes()[idx]
            },
{
    let bytes: &[u8] = input.as_bytes();
    let mut out: Vec<T> = Vec::new();
    let mut i: usize = 0;
    while i < bytes.len()
        invariant
            client_key.space() == T::space_needed(),
            i <= bytes@.len(),
            bytes@ == input.spec_bytes(),
            out@.len() == i,
            forall|idx: int|
                0 <= idx < i ==> {
                    &&& (#[trigger] out@[idx]).wf()
                    &&& out@[idx].key_id() == client_key.id()
                    &&& out@[idx].byte_val() == bytes@[idx]
                },
        decreases bytes@.len() - i,
    {
        out.push(T::encrypt(client_key, bytes[i]));
        i += 1;
    }
    out
}

} // verus!
