//! The two pairing groups of BLS12-381 and their target group. Each element
//! carries, as a ghost integer, its discrete logarithm to the group's fixed
//! generator; all three groups have prime order r.
use crate::field::{fadd, fmul, fsub, modulus, Fr};
use bls12_381::{G1Affine, G1Projective, G2Affine, G2Projective};
use vstd::prelude::*;

verus! {

#[verifier::external_type_specification]
#[verifier::external_body]
pub struct ExG1Projective(bls12_381::G1Projective);

#[verifier::external_type_specification]
#[verifier::external_body]
pub struct ExG2Projective(bls12_381::G2Projective);

#[verifier::external_type_specification]
#[verifier::external_body]
pub struct ExGt(bls12_381::Gt);

/// An element of the first group; `d` is its logarithm to the generator.
#[derive(Clone, Copy)]
pub struct G1 {
    p: G1Projective,
    d: Ghost<int>,
}

/// An element of the second group; `d` is its logarithm to the generator.
#[derive(Clone, Copy)]
pub struct G2 {
    p: G2Projective,
    d: Ghost<int>,
}

/// An element of the target group; `d` is its logarithm to `e(G1, G2)`.
pub struct TargetElem {
    p: bls12_381::Gt,
    d: Ghost<int>,
}

impl G1 {
    /// The discrete logarithm that this element stands for.
    pub closed spec fn log(&self) -> int {
        self.d@
    }

    /// The element as a value of the curve library.
    pub fn point(&self) -> G1Projective {
        self.p
    }

    pub open spec fn wf(&self) -> bool {
        0 <= self.log() < modulus()
    }

    /// Relies on `G1Projective::generator`: the fixed generator.
    #[verifier::external_body]
    pub(crate) fn generator() -> (r: G1)
        ensures
            r.wf(),
            r.log() == 1,
    {
        G1 { p: G1Projective::generator(), d: Ghost(1) }
    }

    /// Relies on `G1Projective::identity`: the point at infinity.
    #[verifier::external_body]
    pub(crate) fn identity() -> (r: G1)
        ensures
            r.wf(),
            r.log() == 0,
    {
        G1 { p: G1Projective::identity(), d: Ghost(0) }
    }

    /// Relies on `Mul<Scalar> for G1Projective`: scalar multiplication.
    #[verifier::external_body]
    pub(crate) fn scale(&self, k: &Fr) -> (r: G1)
        ensures
            r.wf(),
            r.log() == fmul(k.val(), self.log()),
    {
        G1 { p: self.p * k.scalar(), d: Ghost(fmul(k.val(), self.log())) }
    }

    /// Relies on `Add for G1Projective`: the group law.
    #[verifier::external_body]
    pub(crate) fn plus(&self, o: &G1) -> (r: G1)
        ensures
            r.wf(),
            r.log() == fadd(self.log(), o.log()),
    {
        G1 { p: self.p + o.p, d: Ghost(fadd(self.log(), o.log())) }
    }

    /// Relies on `Sub for G1Projective`: adding the inverse.
    #[verifier::external_body]
    pub(crate) fn minus(&self, o: &G1) -> (r: G1)
        ensures
            r.wf(),
            r.log() == fsub(self.log(), o.log()),
    {
        G1 { p: self.p - o.p, d: Ghost(fsub(self.log(), o.log())) }
    }
}

impl G2 {
    /// The discrete logarithm that this element stands for.
    pub closed spec fn log(&self) -> int {
        self.d@
    }

    /// The element as a value of the curve library.
    pub fn point(&self) -> G2Projective {
        self.p
    }

    pub open spec fn wf(&self) -> bool {
        0 <= self.log() < modulus()
    }

    /// Relies on `G2Projective::generator`: the fixed generator.
    #[verifier::external_body]
    pub(crate) fn generator() -> (r: G2)
        ensures
            r.wf(),
            r.log() == 1,
    {
        G2 { p: G2Projective::generator(), d: Ghost(1) }
    }

    /// Relies on `G2Projective::identity`: the point at infinity.
    #[verifier::external_body]
    pub(crate) fn identity() -> (r: G2)
        ensures
            r.wf(),
            r.log() == 0,
    {
        G2 { p: G2Projective::identity(), d: Ghost(0) }
    }

    /// Relies on `Mul<Scalar> for G2Projective`: scalar multiplication.
    #[verifier::external_body]
    pub(crate) fn scale(&self, k: &Fr) -> (r: G2)
        ensures
            r.wf(),
            r.log() == fmul(k.val(), self.log()),
    {
        G2 { p: self.p * k.scalar(), d: Ghost(fmul(k.val(), self.log())) }
    }

    /// Relies on `Add for G2Projective`: the group law.
    #[verifier::external_body]
    pub(crate) fn plus(&self, o: &G2) -> (r: G2)
        ensures
            r.wf(),
            r.log() == fadd(self.log(), o.log()),
    {
        G2 { p: self.p + o.p, d: Ghost(fadd(self.log(), o.log())) }
    }

    /// Relies on `Sub for G2Projective`: adding the inverse.
    #[verifier::external_body]
    pub(crate) fn minus(&self, o: &G2) -> (r: G2)
        ensures
            r.wf(),
            r.log() == fsub(self.log(), o.log()),
    {
        G2 { p: self.p - o.p, d: Ghost(fsub(self.log(), o.log())) }
    }
}

impl TargetElem {
    /// The discrete logarithm that this element stands for.
    pub closed spec fn log(&self) -> int {
        self.d@
    }

    /// The element as a value of the curve library.
    pub fn point(&self) -> bls12_381::Gt {
        self.p
    }

    pub open spec fn wf(&self) -> bool {
        0 <= self.log() < modulus()
    }

    /// Relies on `PartialEq for Gt`: in a group of prime order r, two elements
    /// are equal exactly when their logarithms are.
    #[verifier::external_body]
    pub(crate) fn same(&self, o: &TargetElem) -> (r: bool)
        requires
            self.wf(),
            o.wf(),
        ensures
            r == (self.log() == o.log()),
    {
        self.p == o.p
    }
}

/// Relies on `bls12_381::pairing` (after conversion to affine form): the
/// bilinear map, under which `e(a·G1, b·G2) = e(G1, G2)^(a·b)`.
#[verifier::external_body]
pub(crate) fn pairing(a: &G1, b: &G2) -> (r: TargetElem)
    ensures
        r.wf(),
        r.log() == fmul(a.log(), b.log()),
{
    TargetElem { p: bls12_381::pairing(&G1Affine::from(a.p), &G2Affine::from(b.p)), d: Ghost(fmul(a.log(), b.log())) }
}

} // verus!
