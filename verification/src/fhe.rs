//! The trusted boundary to the homomorphic back-end.
//!
//! A limb ciphertext ([`LimbCt`]) pairs the back-end's ciphertext with
//! three ghost facts: the value it encrypts, the identity of the key pair
//! it was encrypted under, and a bound on the degree the back end tracks
//! for it.  Only the wrappers in this module create such values, and each
//! wrapper's contract states, at the level of those ghost values, exactly
//! what the back end's source shows of the call: an equality test returns
//! an encryption of 1 or 0, an addition returns an encryption of the sum
//! while it fits the message space, and so on.  The degree matters because
//! the back end's bivariate operations pack the two plaintexts into one
//! lookup as `left * (right degree + 1) + right`, and the lookup covers
//! only the message-carry domain — the square of the message space for the
//! parameter sets [`gen_keys`] builds.  Each bivariate wrapper therefore
//! requires the packing to fit.  Everything proved about the encodings and
//! the ciphertext machine rests on these contracts.

use vstd::prelude::*;

verus! {

/// The back-end's ciphertext, held whole and opaquely: the generic
/// ciphertext type cannot be declared to the verifier (its order parameter
/// is bound by a sealed trait of the back-end), so this struct hides it.
#[verifier::external_body]
pub struct RawCt {
    ct: tfhe::shortint::ciphertext::CiphertextBig,
}

#[verifier::external_type_specification]
#[verifier::external_body]
pub struct ExClientKey(tfhe::shortint::ClientKey);

#[verifier::external_type_specification]
#[verifier::external_body]
pub struct ExServerKey(tfhe::shortint::ServerKey);

/// Which limb decomposition a key pair is generated for: four limbs of two
/// bits, or two limbs of four bits.
#[derive(Clone, Copy, Debug, PartialEq, Eq, Structural)]
pub enum LimbWidth {
    TwoBits,
    FourBits,
}

/// The per-limb message space a width needs of its parameters.
pub open spec fn width_space(w: LimbWidth) -> nat {
    match w {
        LimbWidth::TwoBits => 4,
        LimbWidth::FourBits => 16,
    }
}

/// A handle on the client (secret) key, carrying the identity of its key pair and the
/// per-limb message space of its parameters.
pub struct ClientKeyHandle {
    raw: tfhe::shortint::ClientKey,
    id: Ghost<int>,
    space: Ghost<nat>,
}

impl ClientKeyHandle {
    /// The identity of the key pair this key belongs to.
    pub closed spec fn id(&self) -> int {
        self.id@
    }

    /// The number of values one limb ciphertext can hold.
    pub closed spec fn space(&self) -> nat {
        self.space@
    }
}

/// A handle on the server (evaluation) key of a key pair.
pub struct ServerKeyHandle {
    raw: tfhe::shortint::ServerKey,
    id: Ghost<int>,
    space: Ghost<nat>,
}

impl ServerKeyHandle {
    /// The identity of the key pair this key belongs to.
    pub closed spec fn id(&self) -> int {
        self.id@
    }

    /// The number of values one limb ciphertext can hold.
    pub closed spec fn space(&self) -> nat {
        self.space@
    }
}

/// One encrypted limb, with the value it encrypts, the identity of the key
/// pair it was encrypted under, and a bound on its tracked degree.
pub struct LimbCt {
    raw: RawCt,
    key: Ghost<int>,
    val: Ghost<nat>,
    deg: Ghost<nat>,
}

impl LimbCt {
    /// The identity of the key pair this ciphertext belongs to.
    pub closed spec fn key_id(&self) -> int {
        self.key@
    }

    /// The value this ciphertext encrypts.
    pub closed spec fn val(&self) -> nat {
        self.val@
    }

    /// A bound on the degree the back end tracks for this ciphertext: the
    /// largest plaintext it may hold, which bivariate operations use to
    /// pack two plaintexts into one lookup.
    pub closed spec fn deg(&self) -> nat {
        self.deg@
    }
}

/// Relies on tfhe::shortint::gen_keys with PARAM_MESSAGE_2_CARRY_2 or
/// PARAM_MESSAGE_4_CARRY_4: a fresh matching key pair whose per-limb
/// message space is 4 or 16 for the two widths.  Both parameter sets carry
/// as much carry space as message space, so their message-carry domain is
/// the square of the message space.
#[verifier::external_body]
pub fn gen_keys(width: LimbWidth) -> (r: (ClientKeyHandle, ServerKeyHandle))
    ensures
        r.0.id() == r.1.id(),
        r.0.space() == width_space(width),
        r.1.space() == width_space(width),
{
    let p = match width {
        LimbWidth::TwoBits => tfhe::shortint::parameters::PARAM_MESSAGE_2_CARRY_2,
        LimbWidth::FourBits => tfhe::shortint::parameters::PARAM_MESSAGE_4_CARRY_4,
    };
    let (ck, sk) = tfhe::shortint::gen_keys(p);
    (
        ClientKeyHandle { raw: ck, id: Ghost(arbitrary()), space: Ghost(arbitrary()) },
        ServerKeyHandle { raw: sk, id: Ghost(arbitrary()), space: Ghost(arbitrary()) },
    )
}

/// Relies on tfhe::shortint::ClientKey::encrypt: a ciphertext of this key
/// pair holding `v`, for `v` within the key's message space; a fresh
/// encryption's tracked degree is the message space less one.
#[verifier::external_body]
pub(crate) fn encrypt_limb(ck: &ClientKeyHandle, v: u64) -> (r: LimbCt)
    requires
        v < ck.space(),
    ensures
        r.key_id() == ck.id(),
        r.val() == v,
        r.deg() == ck.space() - 1,
{
    LimbCt {
        raw: RawCt { ct: ck.raw.encrypt(v) },
        key: Ghost(arbitrary()),
        val: Ghost(arbitrary()),
        deg: Ghost(arbitrary()),
    }
}

/// Relies on tfhe::shortint::ClientKey::decrypt: the value a ciphertext of
/// this key pair holds, read back exactly while it is within the key's
/// message space.
#[verifier::external_body]
pub(crate) fn decrypt_limb(ck: &ClientKeyHandle, c: &LimbCt) -> (r: u64)
    requires
        c.key_id() == ck.id(),
        c.val() < ck.space(),
    ensures
        r == c.val(),
{
    ck.raw.decrypt(&c.raw.ct)
}

/// Relies on tfhe::shortint::ServerKey::unchecked_equal: an encryption of 1
/// if the operands hold the same value, else of 0.  Like every bivariate
/// operation it packs the operands by the right's degree, so the packing
/// must fit the message-carry domain; the result is a fresh boolean of
/// degree 1.
#[verifier::external_body]
pub(crate) fn eq_limb(sk: &ServerKeyHandle, a: &LimbCt, b: &LimbCt) -> (r: LimbCt)
    requires
        a.key_id() == sk.id(),
        b.key_id() == sk.id(),
        a.val() < sk.space(),
        b.val() < sk.space(),
        a.val() <= a.deg(),
        b.val() <= b.deg(),
        a.deg() * (b.deg() + 1) + b.deg() < sk.space() * sk.space(),
    ensures
        r.key_id() == sk.id(),
        r.deg() == 1,
        r.val() == (if a.val() == b.val() {
            1nat
        } else {
            0nat
        }),
{
    LimbCt {
        raw: RawCt { ct: sk.raw.unchecked_equal(&a.raw.ct, &b.raw.ct) },
        key: Ghost(arbitrary()),
        val: Ghost(arbitrary()),
        deg: Ghost(arbitrary()),
    }
}

/// Relies on tfhe::shortint::ServerKey::unchecked_greater: an encryption of
/// 1 if the left operand holds the greater value, else of 0; bivariate, so
/// the packing must fit as for the equality test.
#[verifier::external_body]
pub(crate) fn gt_limb(sk: &ServerKeyHandle, a: &LimbCt, b: &LimbCt) -> (r: LimbCt)
    requires
        a.key_id() == sk.id(),
        b.key_id() == sk.id(),
        a.val() < sk.space(),
        b.val() < sk.space(),
        a.val() <= a.deg(),
        b.val() <= b.deg(),
        a.deg() * (b.deg() + 1) + b.deg() < sk.space() * sk.space(),
    ensures
        r.key_id() == sk.id(),
        r.deg() == 1,
        r.val() == (if a.val() > b.val() {
            1nat
        } else {
            0nat
        }),
{
    LimbCt {
        raw: RawCt { ct: sk.raw.unchecked_greater(&a.raw.ct, &b.raw.ct) },
        key: Ghost(arbitrary()),
        val: Ghost(arbitrary()),
        deg: Ghost(arbitrary()),
    }
}

/// Relies on tfhe::shortint::ServerKey::unchecked_greater_or_equal: an
/// encryption of 1 if the left operand holds at least the right's value,
/// else of 0; bivariate, so the packing must fit as for the equality test.
#[verifier::external_body]
pub(crate) fn ge_limb(sk: &ServerKeyHandle, a: &LimbCt, b: &LimbCt) -> (r: LimbCt)
    requires
        a.key_id() == sk.id(),
        b.key_id() == sk.id(),
        a.val() < sk.space(),
        b.val() < sk.space(),
        a.val() <= a.deg(),
        b.val() <= b.deg(),
        a.deg() * (b.deg() + 1) + b.deg() < sk.space() * sk.space(),
    ensures
        r.key_id() == sk.id(),
        r.deg() == 1,
        r.val() == (if a.val() >= b.val() {
            1nat
        } else {
            0nat
        }),
{
    LimbCt {
        raw: RawCt { ct: sk.raw.unchecked_greater_or_equal(&a.raw.ct, &b.raw.ct) },
        key: Ghost(arbitrary()),
        val: Ghost(arbitrary()),
        deg: Ghost(arbitrary()),
    }
}

/// Relies on tfhe::shortint::ServerKey::unchecked_less: an encryption of 1
/// if the left operand holds the smaller value, else of 0; bivariate, so
/// the packing must fit as for the equality test.
#[verifier::external_body]
pub(crate) fn lt_limb(sk: &ServerKeyHandle, a: &LimbCt, b: &LimbCt) -> (r: LimbCt)
    requires
        a.key_id() == sk.id(),
        b.key_id() == sk.id(),
        a.val() < sk.space(),
        b.val() < sk.space(),
        a.val() <= a.deg(),
        b.val() <= b.deg(),
        a.deg() * (b.deg() + 1) + b.deg() < sk.space() * sk.space(),
    ensures
        r.key_id() == sk.id(),
        r.deg() == 1,
        r.val() == (if a.val() < b.val() {
            1nat
        } else {
            0nat
        }),
{
    LimbCt {
        raw: RawCt { ct: sk.raw.unchecked_less(&a.raw.ct, &b.raw.ct) },
        key: Ghost(arbitrary()),
        val: Ghost(arbitrary()),
        deg: Ghost(arbitrary()),
    }
}

/// Relies on tfhe::shortint::ServerKey::unchecked_less_or_equal: an
/// encryption of 1 if the left operand holds at most the right's value,
/// else of 0; bivariate, so the packing must fit as for the equality test.
#[verifier::external_body]
pub(crate) fn le_limb(sk: &ServerKeyHandle, a: &LimbCt, b: &LimbCt) -> (r: LimbCt)
    requires
        a.key_id() == sk.id(),
        b.key_id() == sk.id(),
        a.val() < sk.space(),
        b.val() < sk.space(),
        a.val() <= a.deg(),
        b.val() <= b.deg(),
        a.deg() * (b.deg() + 1) + b.deg() < sk.space() * sk.space(),
    ensures
        r.key_id() == sk.id(),
        r.deg() == 1,
        r.val() == (if a.val() <= b.val() {
            1nat
        } else {
            0nat
        }),
{
    LimbCt {
        raw: RawCt { ct: sk.raw.unchecked_less_or_equal(&a.raw.ct, &b.raw.ct) },
        key: Ghost(arbitrary()),
        val: Ghost(arbitrary()),
        deg: Ghost(arbitrary()),
    }
}

/// Relies on tfhe::shortint::ServerKey::unchecked_mul_lsb: an encryption of
/// the product, which the operands must keep within the message space;
/// bivariate, so the packing must fit as for the equality test.  The
/// lookup's result is reduced to the message space, so its degree is the
/// message space less one.
#[verifier::external_body]
pub(crate) fn mul_limb(sk: &ServerKeyHandle, a: &LimbCt, b: &LimbCt) -> (r: LimbCt)
    requires
        a.key_id() == sk.id(),
        b.key_id() == sk.id(),
        a.val() < sk.space(),
        b.val() < sk.space(),
        a.val() * b.val() < sk.space(),
        a.val() <= a.deg(),
        b.val() <= b.deg(),
        a.deg() * (b.deg() + 1) + b.deg() < sk.space() * sk.space(),
    ensures
        r.key_id() == sk.id(),
        r.val() == a.val() * b.val(),
        r.deg() == sk.space() - 1,
{
    LimbCt {
        raw: RawCt { ct: sk.raw.unchecked_mul_lsb(&a.raw.ct, &b.raw.ct) },
        key: Ghost(arbitrary()),
        val: Ghost(arbitrary()),
        deg: Ghost(arbitrary()),
    }
}

/// Relies on tfhe::shortint::ServerKey::unchecked_add: an encryption of the
/// sum, which the operands must keep within the message space.  The
/// addition happens in the clear on the underlying encodings, so the
/// tracked degrees add; the sum of degrees must stay in the message-carry
/// domain for the ciphertext to remain usable.
#[verifier::external_body]
pub(crate) fn add_limb(sk: &ServerKeyHandle, a: &LimbCt, b: &LimbCt) -> (r: LimbCt)
    requires
        a.key_id() == sk.id(),
        b.key_id() == sk.id(),
        a.val() + b.val() < sk.space(),
        a.val() <= a.deg(),
        b.val() <= b.deg(),
        a.deg() + b.deg() < sk.space() * sk.space(),
    ensures
        r.key_id() == sk.id(),
        r.val() == a.val() + b.val(),
        r.deg() == a.deg() + b.deg(),
{
    LimbCt {
        raw: RawCt { ct: sk.raw.unchecked_add(&a.raw.ct, &b.raw.ct) },
        key: Ghost(arbitrary()),
        val: Ghost(arbitrary()),
        deg: Ghost(arbitrary()),
    }
}

/// Relies on tfhe::shortint::ServerKey::smart_scalar_greater_or_equal with
/// scalar 1: an encryption of 1 if the operand holds a nonzero value, else
/// of 0; a univariate lookup over the whole message-carry domain, so the
/// operand's degree must lie within it, and the result is a fresh boolean
/// of degree 1.  The folds use it to clamp partial sums.
#[verifier::external_body]
pub(crate) fn ge_one_limb(sk: &ServerKeyHandle, a: &LimbCt) -> (r: LimbCt)
    requires
        a.key_id() == sk.id(),
        a.val() <= a.deg(),
        a.deg() < sk.space() * sk.space(),
    ensures
        r.key_id() == sk.id(),
        r.deg() == 1,
        r.val() == (if a.val() >= 1 {
            1nat
        } else {
            0nat
        }),
{
    LimbCt {
        raw: RawCt { ct: sk.raw.smart_scalar_greater_or_equal(&a.raw.ct, 1_u8) },
        key: Ghost(arbitrary()),
        val: Ghost(arbitrary()),
        deg: Ghost(arbitrary()),
    }
}

/// Read a boolean ciphertext back as the plaintext boolean it holds: the
/// decision oracle's step, for the holder of the client key.
pub fn decrypt_bool(ck: &ClientKeyHandle, c: &LimbCt) -> (r: bool)
    requires
        c.key_id() == ck.id(),
        c.val() < ck.space(),
    ensures
        r == (c.val() != 0),
{
    decrypt_limb(ck, c) != 0
}

} // verus!
