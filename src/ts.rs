//! The structured reference string: powers of one secret in both groups.
use crate::field::{fmul, fpow, modulus, random_fr, Fr};
use crate::group::{G1, G2};
use crate::kzg::KzgError;
use vstd::arithmetic::div_mod::lemma_small_mod;
use vstd::prelude::*;

verus! {

/// `g1[i] = G1 · s^i` and `g2[i] = G2 · s^i` for one secret `s`, which lives on
/// only as the ghost `secret`.
#[allow(non_camel_case_types)]
pub struct trustedSetup {
    pub g1: Vec<G1>,
    pub g2: Vec<G2>,
    pub secret: Ghost<int>,
}

/// The discrete logarithms of a sequence of first-group elements.
pub open spec fn logs1(v: Seq<G1>) -> Seq<int> {
    Seq::new(v.len(), |i: int| v[i].log())
}

/// The discrete logarithms of a sequence of second-group elements.
pub open spec fn logs2(v: Seq<G2>) -> Seq<int> {
    Seq::new(v.len(), |i: int| v[i].log())
}

impl trustedSetup {
    pub open spec fn wf(&self) -> bool {
        &&& 0 <= self.secret@ < modulus()
        &&& self.g1@.len() == self.g2@.len()
        &&& self.g1@.len() >= 1
        &&& forall|i: int| 0 <= i < self.g1@.len() ==> (#[trigger] self.g1@[i]).wf()
            && self.g1@[i].log() == fpow(self.secret@, i as nat)
        &&& forall|i: int| 0 <= i < self.g2@.len() ==> (#[trigger] self.g2@[i]).wf()
            && self.g2@[i].log() == fpow(self.secret@, i as nat)
    }
}

proof fn lemma_mul_one(e: int)
    requires
        0 <= e < modulus(),
    ensures
        fmul(e, 1) == e,
{
    lemma_small_mod(e as nat, modulus() as nat);
}

/// The setup of `max_degree + 1` powers of the given secret.
pub fn setup_from_secret(secret: &Fr, max_degree: usize) -> (r: trustedSetup)
    requires
        secret.wf(),
        max_degree < usize::MAX,
    ensures
        r.wf(),
        r.secret@ == secret.val(),
        r.g1@.len() == max_degree + 1,
{
    let g1 = G1::generator();
    let g2 = G2::generator();
    let mut srs_g1: Vec<G1> = Vec::new();
    let mut srs_g2: Vec<G2> = Vec::new();
    let mut exponent = Fr::one();
    let n = max_degree + 1;
    let mut i: usize = 0;
    while i < n
        invariant
            i <= n,
            secret.wf(),
            g1.log() == 1,
            g2.log() == 1,
            exponent.wf(),
            exponent.val() == fpow(secret.val(), i as nat),
            srs_g1@.len() == i,
            srs_g2@.len() == i,
            forall|k: int| 0 <= k < i ==> (#[trigger] srs_g1@[k]).wf() && srs_g1@[k].log() == fpow(
                secret.val(),
                k as nat,
            ),
            forall|k: int| 0 <= k < i ==> (#[trigger] srs_g2@[k]).wf() && srs_g2@[k].log() == fpow(
                secret.val(),
                k as nat,
            ),
        decreases n - i,
    {
        proof {
            lemma_mul_one(exponent.val());
        }
        srs_g1.push(g1.scale(&exponent));
        srs_g2.push(g2.scale(&exponent));
        exponent = secret.times(&exponent);
        i = i + 1;
    }
    exponent.erase();
    trustedSetup { g1: srs_g1, g2: srs_g2, secret: Ghost(secret.val()) }
}

/// A fresh setup for polynomials of degree up to `max_degree`, from a secret drawn
/// from the operating system's randomness source; the secret is zeroed before
/// return. Fails with `SetupEntropyFailure`, and no setup, where the source fails.
#[allow(non_snake_case)]
pub fn generatorTS(max_degree: usize) -> (r: Result<trustedSetup, KzgError>)
    requires
        max_degree < usize::MAX,
    ensures
        r matches Ok(ts) ==> ts.wf() && ts.g1@.len() == max_degree + 1,
        r matches Err(e) ==> e == KzgError::SetupEntropyFailure,
{
    match random_fr() {
        Some(secret) => {
            let mut secret = secret;
            let ts = setup_from_secret(&secret, max_degree);
            secret.erase();
            Ok(ts)
        },
        None => Err(KzgError::SetupEntropyFailure),
    }
}

} // verus!
