//! Commitments, opening proofs and their pairing check.
use crate::field::{fadd, fmul, fpow, fsub, modulus, Fr};
use crate::group::{pairing, G1, G2};
use crate::polynomials::{
    canonical, coeff, is_linear_quotient, lemma_linear_quotient_eval, lemma_sub_const_prefix, peval,
    psum, Polynomial,
};
use crate::ts::{logs1, logs2, trustedSetup};
use vstd::arithmetic::div_mod::{
    lemma_add_mod_noop_right, lemma_fundamental_div_mod, lemma_small_mod,
};
use vstd::prelude::*;

verus! {

#[derive(Debug, PartialEq, Eq, Structural)]
pub enum KzgError {
    /// The polynomial has more coefficients than the setup has powers.
    DegreeExceeded,
    /// The setup is too short, or its two sequences differ in length.
    MalformedProof,
    /// Exact division by `x - root` was asked of a polynomial that `root` is not a root of.
    DivisionInvariantViolation,
    /// The randomness source could not supply the setup's secret.
    SetupEntropyFailure,
}

/// An opening of a committed polynomial at `challenge` to the value `evaluation`.
#[derive(Clone, Copy)]
pub struct Proof {
    pub poly_commitment: G1,
    pub quon_commitment: G1,
    pub evaluation: Fr,
    pub challenge: Fr,
}

/// The sum of `c[i] * g[i]` over `i < n`, in the field.
pub open spec fn commit_sum(c: Seq<int>, g: Seq<int>, n: nat) -> int
    decreases n,
{
    if n == 0 {
        0
    } else {
        fadd(commit_sum(c, g, (n - 1) as nat), fmul(c[n - 1], g[n - 1]))
    }
}

/// The coefficients `c` with `y` taken off the constant term.
pub open spec fn sub_const(c: Seq<int>, y: int) -> Seq<int> {
    if c.len() == 0 {
        c
    } else {
        c.update(0, fsub(c[0], y))
    }
}

/// The pairing equation `e(Q, [s] - z·[1]) == e(P - y·[1], [1])` on logarithms,
/// where `g1` and `g2` are the logarithms of the setup's first powers in the two
/// groups and `s2` that of its second power in the second group.
pub open spec fn pairing_holds(proof: Proof, z: int, g1: int, g2: int, s2: int) -> bool {
    fmul(proof.quon_commitment.log(), fsub(s2, fmul(z, g2))) == fmul(
        fsub(proof.poly_commitment.log(), fmul(proof.evaluation.val(), g1)),
        g2,
    )
}

/// What `prove` returns for the coefficients `c` at `z` under the first-group
/// powers `g1`: the value `y = c(z)`, the commitment to `c`, and the commitment to
/// the quotient of `c - y` by `x - z`.
pub open spec fn opens(pr: Proof, c: Seq<int>, z: int, g1: Seq<G1>) -> bool {
    &&& pr.wf()
    &&& pr.poly_commitment.wf()
    &&& pr.quon_commitment.wf()
    &&& pr.challenge.val() == z
    &&& pr.evaluation.val() == peval(c, z)
    &&& pr.poly_commitment.log() == commit_sum(c, logs1(g1), c.len())
    &&& exists|q: Seq<int>|
        canonical(q) && is_linear_quotient(sub_const(c, peval(c, z)), fsub(0, z), q)
            && pr.quon_commitment.log() == commit_sum(q, logs1(g1), q.len())
}

/// The outcome of `verify` on a proof, a challenge and a setup.
pub open spec fn verify_result(proof: Proof, z: int, ts: trustedSetup) -> Result<bool, KzgError> {
    if ts.g2@.len() < 2 || ts.g1@.len() != ts.g2@.len() {
        Err(KzgError::MalformedProof)
    } else {
        Ok(
            proof.challenge.val() == z && pairing_holds(
                proof,
                z,
                ts.g1@[0].log(),
                ts.g2@[0].log(),
                ts.g2@[1].log(),
            ),
        )
    }
}

impl Proof {
    pub open spec fn wf(&self) -> bool {
        self.evaluation.wf() && self.challenge.wf()
    }
}

impl Polynomial {
    /// The commitment `Σ coef[i] · srs[i]` in the first group.
    #[allow(non_snake_case)]
    pub fn commitG1(poly: &Polynomial, srs: &Vec<G1>) -> (r: Result<G1, KzgError>)
        ensures
            poly.coef@.len() > srs@.len() <==> r == Err::<G1, KzgError>(KzgError::DegreeExceeded),
            poly.coef@.len() <= srs@.len() ==> r is Ok,
            r matches Ok(c) ==> c.wf() && c.log() == commit_sum(poly@, logs1(srs@), poly@.len()),
    {
        let n = poly.coef.len();
        if n > srs.len() {
            return Err(KzgError::DegreeExceeded);
        }
        let mut acc = G1::identity();
        let mut i: usize = 0;
        while i < n
            invariant
                i <= n,
                n == poly.coef@.len(),
                n <= srs@.len(),
                acc.wf(),
                acc.log() == commit_sum(poly@, logs1(srs@), i as nat),
            decreases n - i,
        {
            let t = srs[i].scale(&poly.coef[i]);
            acc = acc.plus(&t);
            i = i + 1;
        }
        Ok(acc)
    }

    /// The commitment `Σ coef[i] · srs[i]` in the second group.
    #[allow(non_snake_case)]
    pub fn commitG2(poly: &Polynomial, srs: &Vec<G2>) -> (r: Result<G2, KzgError>)
        ensures
            poly.coef@.len() > srs@.len() <==> r == Err::<G2, KzgError>(KzgError::DegreeExceeded),
            poly.coef@.len() <= srs@.len() ==> r is Ok,
            r matches Ok(c) ==> c.wf() && c.log() == commit_sum(poly@, logs2(srs@), poly@.len()),
    {
        let n = poly.coef.len();
        if n > srs.len() {
            return Err(KzgError::DegreeExceeded);
        }
        let mut acc = G2::identity();
        let mut i: usize = 0;
        while i < n
            invariant
                i <= n,
                n == poly.coef@.len(),
                n <= srs@.len(),
                acc.wf(),
                acc.log() == commit_sum(poly@, logs2(srs@), i as nat),
            decreases n - i,
        {
            let t = srs[i].scale(&poly.coef[i]);
            acc = acc.plus(&t);
            i = i + 1;
        }
        Ok(acc)
    }
}

/// Opens `poly` at `challenge`: its value there, its commitment, and the
/// commitment to the quotient of `poly - y` by `x - challenge`.
pub fn prove(poly: Polynomial, challenge: Fr, ts: &trustedSetup) -> (r: Result<Proof, KzgError>)
    requires
        poly.wf(),
        challenge.wf(),
        ts.wf(),
    ensures
        poly.coef@.len() > ts.g1@.len() <==> r == Err::<Proof, KzgError>(KzgError::DegreeExceeded),
        poly.coef@.len() <= ts.g1@.len() ==> r is Ok,
        r matches Ok(pr) ==> opens(pr, poly@, challenge.val(), ts.g1@),
{
    let pc = match Polynomial::commitG1(&poly, &ts.g1) {
        Ok(c) => c,
        Err(e) => {
            return Err(e);
        },
    };
    let y = poly.eval(&challenge);
    let ghost p0 = poly@;
    let mut numerator = poly;
    if numerator.coef.len() > 0 {
        let c0 = numerator.coef[0].minus(&y);
        numerator.coef.set(0, c0);
    }
    assert(numerator@ =~= sub_const(p0, y.val()));
    proof {
        if p0.len() > 0 {
            let m = modulus();
            assert(canonical(p0)) by {
                assert forall|i: int| 0 <= i < p0.len() implies 0 <= #[trigger] p0[i] < m by {
                    assert(poly.coef@[i].wf());
                }
            }
            lemma_sub_const_prefix(p0, y.val(), challenge.val(), p0.len());
            lemma_small_mod(0, m as nat);
        }
    }
    let quotient = match Polynomial::divide_by_linear(&numerator, &challenge) {
        Ok(q) => q,
        Err(e) => {
            return Err(e);
        },
    };
    assert(canonical(quotient@) && is_linear_quotient(
        sub_const(p0, peval(p0, challenge.val())),
        fsub(0, challenge.val()),
        quotient@,
    )) by {
        assert forall|i: int| 0 <= i < quotient@.len() implies 0 <= #[trigger] quotient@[i]
            < modulus() by {
            assert(quotient.coef@[i].wf());
        }
    }
    let qc = match Polynomial::commitG1(&quotient, &ts.g1) {
        Ok(c) => c,
        Err(e) => {
            return Err(e);
        },
    };
    Ok(Proof { poly_commitment: pc, quon_commitment: qc, evaluation: y, challenge })
}

/// Checks an opening against `challenge` and the setup. A setup with fewer than
/// two powers, or with sequences of different lengths, is reported as malformed;
/// otherwise the answer is whether the proof is for this challenge and the
/// pairing equation holds.
pub fn verify(proof: &Proof, challenge: &Fr, ts: &trustedSetup) -> (r: Result<bool, KzgError>)
    requires
        proof.wf(),
        challenge.wf(),
    ensures
        r == verify_result(*proof, challenge.val(), *ts),
{
    if ts.g2.len() < 2 || ts.g1.len() != ts.g2.len() {
        return Err(KzgError::MalformedProof);
    }
    if !proof.challenge.same(challenge) {
        return Ok(false);
    }
    let s_sub_challenge = ts.g2[1].minus(&ts.g2[0].scale(challenge));
    let left_pair = pairing(&proof.quon_commitment, &s_sub_challenge);
    let poly_commit_sub_y = proof.poly_commitment.minus(&ts.g1[0].scale(&proof.evaluation));
    let right_pair = pairing(&poly_commit_sub_y, &ts.g2[0]);
    Ok(left_pair.same(&right_pair))
}

/// A commitment under a well-formed setup is the committed polynomial's value
/// at the secret, carried in the exponent.
pub proof fn lemma_commit_is_eval(c: Seq<int>, ts: trustedSetup, n: nat)
    requires
        ts.wf(),
        n <= c.len() <= ts.g1@.len(),
    ensures
        commit_sum(c, logs1(ts.g1@), n) == psum(c, ts.secret@, n),
    decreases n,
{
    if n > 0 {
        lemma_commit_is_eval(c, ts, (n - 1) as nat);
        assert(ts.g1@[n - 1].wf());
    }
}

/// Completeness: for every polynomial within the setup's degree bound and every
/// challenge, the proof that `prove` returns is accepted by `verify`.
pub proof fn lemma_prove_then_verify(poly: Polynomial, z: Fr, ts: trustedSetup, proof: Proof)
    requires
        poly.wf(),
        z.wf(),
        ts.wf(),
        ts.g1@.len() >= 2,
        poly.coef@.len() <= ts.g1@.len(),
        opens(proof, poly@, z.val(), ts.g1@),
    ensures
        verify_result(proof, z.val(), ts) == Ok::<bool, KzgError>(true),
{
    let m = modulus();
    let s = ts.secret@;
    let c = poly@;
    let zv = z.val();
    let y = peval(c, zv);
    let q = choose|q: Seq<int>|
        canonical(q) && is_linear_quotient(sub_const(c, y), fsub(0, zv), q)
            && proof.quon_commitment.log() == commit_sum(q, logs1(ts.g1@), q.len());
    let a = fsub(0, zv);
    assert(poly.coef@.len() == c.len());
    assert(canonical(c)) by {
        assert forall|i: int| 0 <= i < c.len() implies 0 <= #[trigger] c[i] < m by {
            assert(poly.coef@[i].wf());
        }
    }
    lemma_commit_is_eval(c, ts, c.len());
    lemma_commit_is_eval(q, ts, q.len());
    let pc = psum(c, s, c.len());
    let qs = psum(q, s, q.len());
    lemma_small_mod(0, m as nat);
    lemma_small_mod(s as nat, m as nat);
    lemma_small_mod(zv as nat, m as nat);
    lemma_small_mod(y as nat, m as nat);
    assert(ts.g2@[1].wf());
    assert(ts.g1@[0].wf());
    assert(ts.g2@[0].wf());
    assert(fpow(s, 0) == 1);
    assert(fpow(s, 1) == fmul(s, 1));
    assert(ts.g1@[0].log() == 1);
    assert(ts.g2@[0].log() == 1);
    assert(ts.g2@[1].log() == s);
    let ps = fsub(pc, y);
    lemma_small_mod(ps as nat, m as nat);
    assert(fmul(zv, 1) == zv);
    assert(fmul(y, 1) == y);
    assert(fmul(ps, 1) == ps);
    if c.len() == 0 {
        assert(q.len() == 0);
        assert(qs == 0);
        assert(pc == 0);
        assert(y == 0);
        assert(qs * fsub(s, zv) == 0) by (nonlinear_arith)
            requires
                qs == 0,
        ;
    } else {
        let d = sub_const(c, y);
        assert(canonical(d)) by {
            assert forall|i: int| 0 <= i < d.len() implies 0 <= #[trigger] d[i] < m by {
                if i > 0 {
                    assert(d[i] == c[i]);
                }
            }
        }
        let rem = fsub(d[0], fmul(a, coeff(q, 0)));
        lemma_small_mod(rem as nat, m as nat);
        // at the challenge the shifted polynomial vanishes, so the remainder is zero
        lemma_linear_quotient_eval(d, a, q, zv);
        lemma_sub_const_prefix(c, y, zv, c.len());
        lemma_add_mod_noop_right(zv, 0 - zv, m);
        assert(fadd(zv, a) == 0);
        let qz = peval(q, zv);
        assert(0 * qz == 0) by (nonlinear_arith);
        assert(fmul(0, qz) == 0);
        assert(rem == 0);
        // at the secret: c(s) - y == (s - z) q(s)
        lemma_linear_quotient_eval(d, a, q, s);
        lemma_sub_const_prefix(c, y, s, c.len());
        lemma_add_mod_noop_right(s, 0 - zv, m);
        assert(fadd(s, a) == fsub(s, zv));
        let f = fmul(fsub(s, zv), qs);
        lemma_small_mod(f as nat, m as nat);
        assert(ps == f);
        assert(qs * fsub(s, zv) == fsub(s, zv) * qs) by (nonlinear_arith);
    }
}

/// Two integers less than `m` apart that agree modulo `m` are equal.
proof fn lemma_mod_injective(u: int, v: int, m: int)
    requires
        m > 0,
        -m < u - v < m,
        u % m == v % m,
    ensures
        u == v,
{
    lemma_fundamental_div_mod(u, m);
    lemma_fundamental_div_mod(v, m);
    let k = u / m - v / m;
    assert(u - v == m * k) by (nonlinear_arith)
        requires
            u == m * (u / m) + u % m,
            v == m * (v / m) + v % m,
            u % m == v % m,
            k == u / m - v / m,
    ;
    assert(k == 0) by (nonlinear_arith)
        requires
            u - v == m * k,
            -m < u - v < m,
            m > 0,
    ;
}

/// Tamper sensitivity: an honest proof in which the polynomial commitment, the
/// claimed value or the challenge alone is changed to something else is rejected.
pub proof fn lemma_tampered_proof_rejected(
    poly: Polynomial,
    z: Fr,
    ts: trustedSetup,
    proof: Proof,
    forged: Proof,
)
    requires
        poly.wf(),
        z.wf(),
        ts.wf(),
        ts.g1@.len() >= 2,
        poly.coef@.len() <= ts.g1@.len(),
        opens(proof, poly@, z.val(), ts.g1@),
        forged.wf(),
        forged.poly_commitment.wf(),
        forged.quon_commitment.log() == proof.quon_commitment.log(),
        ({
            ||| forged.poly_commitment.log() != proof.poly_commitment.log()
                && forged.evaluation.val() == proof.evaluation.val()
                && forged.challenge.val() == proof.challenge.val()
            ||| forged.evaluation.val() != proof.evaluation.val()
                && forged.poly_commitment.log() == proof.poly_commitment.log()
                && forged.challenge.val() == proof.challenge.val()
            ||| forged.challenge.val() != proof.challenge.val()
        }),
    ensures
        verify_result(forged, z.val(), ts) == Ok::<bool, KzgError>(false),
{
    let m = modulus();
    lemma_prove_then_verify(poly, z, ts, proof);
    assert(ts.g1@[0].wf());
    assert(ts.g2@[0].wf());
    assert(ts.g1@[0].log() == 1);
    assert(ts.g2@[0].log() == 1);
    if forged.challenge.val() == proof.challenge.val() {
        let y = proof.evaluation.val();
        let y2 = forged.evaluation.val();
        let p = proof.poly_commitment.log();
        let p2 = forged.poly_commitment.log();
        lemma_small_mod(y as nat, m as nat);
        lemma_small_mod(y2 as nat, m as nat);
        assert(fmul(y, 1) == y);
        assert(fmul(y2, 1) == y2);
        let h = fsub(p, y);
        let h2 = fsub(p2, y2);
        lemma_small_mod(h as nat, m as nat);
        lemma_small_mod(h2 as nat, m as nat);
        assert(fmul(h, 1) == h);
        assert(fmul(h2, 1) == h2);
        if h == h2 {
            lemma_mod_injective(p - y, p2 - y2, m);
        }
    }
}

} // verus!
