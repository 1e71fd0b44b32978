//! Elements of the BLS12-381 scalar field, each carrying its value as a ghost integer.
use bls12_381::Scalar;
use rand::rngs::OsRng;
use rand::RngCore;
use zeroize::Zeroize;
use vstd::prelude::*;

verus! {

#[verifier::external_type_specification]
#[verifier::external_body]
pub struct ExScalar(bls12_381::Scalar);

/// The order r of the scalar field.
#[verifier::opaque]
pub open spec fn modulus() -> int {
    let b = 0x1_0000_0000int * 0x1_0000_0000int;
    0x73ed_a753_299d_7d48int * b * b * b + 0x3339_d808_09a1_d805int * b * b
        + 0x53bd_a402_fffe_5bfeint * b + 0xffff_ffff_0000_0001int
}

pub open spec fn fadd(a: int, b: int) -> int {
    (a + b) % modulus()
}

pub open spec fn fsub(a: int, b: int) -> int {
    (a - b) % modulus()
}

pub open spec fn fmul(a: int, b: int) -> int {
    (a * b) % modulus()
}

/// `a` raised to the `n`-th power in the field.
pub open spec fn fpow(a: int, n: nat) -> int
    decreases n,
{
    if n == 0 {
        1
    } else {
        fmul(a, fpow(a, (n - 1) as nat))
    }
}

/// The integer that a little-endian byte string denotes.
pub open spec fn le_value(b: Seq<u8>) -> int
    decreases b.len(),
{
    if b.len() == 0 {
        0
    } else {
        b[0] as int + 256 * le_value(b.drop_first())
    }
}

/// A field element. `v` is the canonical integer in `[0, r)` that it stands for.
#[derive(Clone, Copy)]
pub struct Fr {
    s: Scalar,
    v: Ghost<int>,
}

impl Fr {
    pub closed spec fn val(&self) -> int {
        self.v@
    }

    pub open spec fn wf(&self) -> bool {
        0 <= self.val() < modulus()
    }

    /// Relies on `Scalar::zero`: the additive identity.
    #[verifier::external_body]
    pub fn zero() -> (r: Fr)
        ensures
            r.wf(),
            r.val() == 0,
    {
        Fr { s: Scalar::zero(), v: Ghost(0) }
    }

    /// Relies on `Scalar::one`: the multiplicative identity.
    #[verifier::external_body]
    pub fn one() -> (r: Fr)
        ensures
            r.wf(),
            r.val() == 1,
    {
        Fr { s: Scalar::one(), v: Ghost(1) }
    }

    /// Relies on `From<u64> for Scalar`: the element with that integer value.
    #[verifier::external_body]
    pub fn from_u64(n: u64) -> (r: Fr)
        ensures
            r.wf(),
            r.val() == n as int,
    {
        Fr { s: Scalar::from(n), v: Ghost(n as int) }
    }

    /// Relies on `Scalar::from_bytes_wide`: a 512-bit little-endian integer reduced by r.
    #[verifier::external_body]
    pub fn from_bytes_wide(b: &[u8; 64]) -> (r: Fr)
        ensures
            r.wf(),
            r.val() == le_value(b@) % modulus(),
    {
        Fr { s: Scalar::from_bytes_wide(b), v: Ghost(le_value(b@) % modulus()) }
    }

    /// Relies on `Add for Scalar`: addition modulo r.
    #[verifier::external_body]
    pub(crate) fn plus(&self, o: &Fr) -> (r: Fr)
        ensures
            r.wf(),
            r.val() == fadd(self.val(), o.val()),
    {
        Fr { s: self.s + o.s, v: Ghost(fadd(self.v@, o.v@)) }
    }

    /// Relies on `Sub for Scalar`: subtraction modulo r.
    #[verifier::external_body]
    pub(crate) fn minus(&self, o: &Fr) -> (r: Fr)
        ensures
            r.wf(),
            r.val() == fsub(self.val(), o.val()),
    {
        Fr { s: self.s - o.s, v: Ghost(fsub(self.v@, o.v@)) }
    }

    /// Relies on `Mul for Scalar`: multiplication modulo r.
    #[verifier::external_body]
    pub(crate) fn times(&self, o: &Fr) -> (r: Fr)
        ensures
            r.wf(),
            r.val() == fmul(self.val(), o.val()),
    {
        Fr { s: self.s * o.s, v: Ghost(fmul(self.v@, o.v@)) }
    }

    /// Relies on `PartialEq for Scalar`: equal exactly when the canonical values are.
    #[verifier::external_body]
    pub(crate) fn same(&self, o: &Fr) -> (r: bool)
        requires
            self.wf(),
            o.wf(),
        ensures
            r == (self.val() == o.val()),
    {
        self.s == o.s
    }

    /// Relies on `Zeroize for Scalar`: overwrites the element with zero in place.
    #[verifier::external_body]
    pub(crate) fn erase(&mut self)
        ensures
            final(self).wf(),
            final(self).val() == 0,
    {
        self.s.zeroize();
        self.v = Ghost(0);
    }

    /// The element as a scalar of the curve library.
    pub fn scalar(&self) -> Scalar {
        self.s
    }
}

/// Relies on `OsRng::try_fill_bytes`: 64 bytes from the operating system, or
/// `None` where it reports a failure; nothing is promised of the bytes.
#[verifier::external_body]
pub(crate) fn random_wide_bytes() -> (r: Option<[u8; 64]>) {
    let mut buf = [0u8; 64];
    match OsRng.try_fill_bytes(&mut buf) {
        Ok(()) => Some(buf),
        Err(_) => None,
    }
}

/// A uniformly drawn field element, by wide reduction of 64 random bytes;
/// `None` where the randomness source fails.
pub fn random_fr() -> (r: Option<Fr>)
    ensures
        r matches Some(x) ==> x.wf(),
{
    match random_wide_bytes() {
        Some(b) => Some(Fr::from_bytes_wide(&b)),
        None => None,
    }
}

} // verus!
