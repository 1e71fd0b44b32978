//! Dense univariate polynomials over the scalar field.
use crate::field::{fadd, fmul, fpow, fsub, modulus, random_fr, Fr};
use crate::kzg::KzgError;
use vstd::arithmetic::div_mod::{
    lemma_add_mod_noop, lemma_add_mod_noop_right, lemma_fundamental_div_mod_converse,
    lemma_mul_mod_noop, lemma_mul_mod_noop_left, lemma_small_mod, lemma_sub_mod_noop,
    lemma_sub_mod_noop_right,
};
use vstd::arithmetic::mul::{
    lemma_mul_is_associative, lemma_mul_is_commutative, lemma_mul_is_distributive_add,
    lemma_mul_is_distributive_add_other_way,
};
use vstd::prelude::*;

verus! {

/// The coefficient at index `i`, zero past either end.
pub open spec fn coeff(c: Seq<int>, i: int) -> int {
    if 0 <= i < c.len() {
        c[i]
    } else {
        0
    }
}

/// The sum of `c[i] * x^i` over `i < n`.
pub open spec fn psum(c: Seq<int>, x: int, n: nat) -> int
    decreases n,
{
    if n == 0 {
        0
    } else {
        fadd(psum(c, x, (n - 1) as nat), fmul(c[n - 1], fpow(x, (n - 1) as nat)))
    }
}

/// The value at `x` of the polynomial with coefficients `c`, lowest degree first.
pub open spec fn peval(c: Seq<int>, x: int) -> int {
    psum(c, x, c.len())
}

pub open spec fn max_len(a: Seq<int>, b: Seq<int>) -> nat {
    if a.len() >= b.len() {
        a.len()
    } else {
        b.len()
    }
}

/// Coefficient-wise sum, the shorter operand padded with zeros.
pub open spec fn padd(a: Seq<int>, b: Seq<int>) -> Seq<int> {
    Seq::new(max_len(a, b), |i: int| fadd(coeff(a, i), coeff(b, i)))
}

/// Coefficient-wise difference, the shorter operand padded with zeros.
pub open spec fn psub(a: Seq<int>, b: Seq<int>) -> Seq<int> {
    Seq::new(max_len(a, b), |i: int| fsub(coeff(a, i), coeff(b, i)))
}

/// The product `a[i] * b[k - i]`, or zero where either index falls outside.
pub open spec fn conv_term(a: Seq<int>, b: Seq<int>, k: int, i: int) -> int {
    if 0 <= i < a.len() && 0 <= k - i < b.len() {
        fmul(a[i], b[k - i])
    } else {
        0
    }
}

/// The sum of `conv_term(a, b, k, i)` over `i < m`.
pub open spec fn conv(a: Seq<int>, b: Seq<int>, k: int, m: nat) -> int
    decreases m,
{
    if m == 0 {
        0
    } else {
        fadd(conv(a, b, k, (m - 1) as nat), conv_term(a, b, k, m - 1))
    }
}

/// Discrete convolution: the coefficients of the product polynomial.
pub open spec fn pmul(a: Seq<int>, b: Seq<int>) -> Seq<int> {
    if a.len() == 0 || b.len() == 0 {
        Seq::empty()
    } else {
        Seq::new((a.len() + b.len() - 1) as nat, |k: int| conv(a, b, k, a.len()))
    }
}

/// `q` is the quotient of `c` by the monic factor `x + a`: one coefficient shorter,
/// and `q * (x + a)` agrees with `c` in every coefficient but the constant one.
pub open spec fn is_linear_quotient(c: Seq<int>, a: int, q: Seq<int>) -> bool {
    &&& q.len() == if c.len() == 0 { 0 } else { c.len() - 1 }
    &&& forall|k: int| 0 <= k < q.len() ==> c[k + 1] == fadd(q[k], fmul(a, coeff(q, k + 1)))
}

pub proof fn lemma_sub_then_add(c: int, m: int, p: int)
    requires
        0 <= c < p,
        0 <= m < p,
    ensures
        ((c - m) % p + m) % p == c,
{
    if c >= m {
        lemma_small_mod((c - m) as nat, p as nat);
        lemma_small_mod(c as nat, p as nat);
    } else {
        lemma_fundamental_div_mod_converse(c - m, p, -1, c - m + p);
        lemma_fundamental_div_mod_converse(c + p, p, 1, c);
    }
}


/// Every coefficient is a canonical field value.
pub open spec fn canonical(c: Seq<int>) -> bool {
    forall|i: int| 0 <= i < c.len() ==> 0 <= #[trigger] c[i] < modulus()
}

/// One step of the division identity, on plain integers modulo `m`.
proof fn lemma_quotient_step(
    m: int,
    x: int,
    a: int,
    qsum: int,
    qk: int,
    qk1: int,
    e: int,
    r: int,
    p: int,
)
    requires
        m > 0,
        0 <= r < m,
        p == ((((x + a) % m * qsum) % m + ((a * qk) % m * e) % m) % m + r) % m,
    ensures
        (p + ((qk + (a * qk1) % m) % m * ((x * e) % m)) % m) % m == ((((x + a) % m * ((qsum + (qk
            * e) % m) % m)) % m + ((a * qk1) % m * ((x * e) % m)) % m) % m + r) % m,
{
    let u = (x + a) * qsum + a * qk * e;
    let w = qk + a * qk1;
    let v = w * (x * e);
    lemma_mul_mod_noop_left(x + a, qsum, m);
    lemma_mul_mod_noop_left(a * qk, e, m);
    lemma_add_mod_noop((x + a) * qsum, a * qk * e, m);
    lemma_small_mod(r as nat, m as nat);
    lemma_add_mod_noop(u, r, m);
    assert(p == (u + r) % m);
    lemma_add_mod_noop_right(qk, a * qk1, m);
    lemma_mul_mod_noop(w, x * e, m);
    lemma_add_mod_noop(u + r, v, m);
    let u2 = (x + a) * (qsum + qk * e);
    let v2 = a * qk1 * (x * e);
    lemma_add_mod_noop_right(qsum, qk * e, m);
    lemma_mul_mod_noop(x + a, qsum + qk * e, m);
    lemma_mul_mod_noop(a * qk1, x * e, m);
    lemma_add_mod_noop(u2, v2, m);
    lemma_add_mod_noop(u2 + v2, r, m);
    lemma_mul_is_distributive_add(x + a, qsum, qk * e);
    lemma_mul_is_distributive_add_other_way(qk * e, x, a);
    lemma_mul_is_distributive_add_other_way(x * e, qk, a * qk1);
    lemma_mul_is_associative(x, qk, e);
    lemma_mul_is_associative(qk, x, e);
    lemma_mul_is_commutative(x, qk);
    lemma_mul_is_associative(a, qk, e);
}

/// The first `n` terms of `c` in terms of its quotient `q` by `x + a`: the
/// quotient's first `n - 1` terms times `x + a`, a carry from the next quotient
/// coefficient, and the remainder `c[0] - a·q[0]`.
proof fn lemma_quotient_prefix(c: Seq<int>, a: int, q: Seq<int>, x: int, n: nat)
    requires
        is_linear_quotient(c, a, q),
        canonical(c),
        canonical(q),
        0 <= a < modulus(),
        0 <= x < modulus(),
        1 <= n <= c.len(),
    ensures
        psum(c, x, n) == fadd(
            fadd(
                fmul(fadd(x, a), psum(q, x, (n - 1) as nat)),
                fmul(fmul(a, coeff(q, n - 1)), fpow(x, (n - 1) as nat)),
            ),
            fsub(c[0], fmul(a, coeff(q, 0))),
        ),
    decreases n,
{
    let m = modulus();
    let t = fmul(a, coeff(q, 0));
    lemma_small_mod(0, m as nat);
    if n == 1 {
        assert(psum(c, x, 0) == 0);
        assert(psum(q, x, 0) == 0);
        assert(fpow(x, 0) == 1);
        lemma_small_mod(c[0] as nat, m as nat);
        lemma_small_mod(t as nat, m as nat);
        lemma_add_mod_noop_right(t, c[0] - t, m);
    } else {
        lemma_quotient_prefix(c, a, q, x, (n - 1) as nat);
        assert(c[n - 1] == fadd(q[n - 2], fmul(a, coeff(q, n - 1))));
        lemma_quotient_step(
            m,
            x,
            a,
            psum(q, x, (n - 2) as nat),
            q[n - 2],
            coeff(q, n - 1),
            fpow(x, (n - 2) as nat),
            fsub(c[0], t),
            psum(c, x, (n - 1) as nat),
        );
    }
}

/// Division identity: `c(x) = (x + a)·q(x) + (c[0] - a·q[0])` when `q` is the
/// quotient of `c` by `x + a`.
pub proof fn lemma_linear_quotient_eval(c: Seq<int>, a: int, q: Seq<int>, x: int)
    requires
        is_linear_quotient(c, a, q),
        canonical(c),
        canonical(q),
        0 <= a < modulus(),
        0 <= x < modulus(),
        c.len() >= 1,
    ensures
        peval(c, x) == fadd(fmul(fadd(x, a), peval(q, x)), fsub(c[0], fmul(a, coeff(q, 0)))),
{
    let m = modulus();
    lemma_quotient_prefix(c, a, q, x, c.len());
    lemma_small_mod(0, m as nat);
    let f = fmul(fadd(x, a), peval(q, x));
    lemma_small_mod(f as nat, m as nat);
    assert(q.len() == c.len() - 1);
    assert(coeff(q, c.len() - 1) == 0);
    assert(a * 0 == 0);
    assert(fmul(a, 0) == 0);
    let e = fpow(x, (c.len() - 1) as nat);
    assert(0 * e == 0) by (nonlinear_arith);
    assert(fmul(0, e) == 0);
}

/// Taking `y` off the constant term takes `y` off the value.
pub proof fn lemma_sub_const_prefix(c: Seq<int>, y: int, x: int, n: nat)
    requires
        canonical(c),
        0 <= y < modulus(),
        0 <= x < modulus(),
        1 <= n <= c.len(),
    ensures
        psum(c.update(0, fsub(c[0], y)), x, n) == fsub(psum(c, x, n), y),
    decreases n,
{
    let m = modulus();
    let d = c.update(0, fsub(c[0], y));
    lemma_small_mod(0, m as nat);
    if n == 1 {
        assert(psum(c, x, 0) == 0);
        assert(psum(d, x, 0) == 0);
        assert(fpow(x, 0) == 1);
        lemma_small_mod(c[0] as nat, m as nat);
        let f = fsub(c[0], y);
        lemma_small_mod(f as nat, m as nat);
    } else {
        lemma_sub_const_prefix(c, y, x, (n - 1) as nat);
        let pp = psum(c, x, (n - 1) as nat);
        let t = fmul(c[n - 1], fpow(x, (n - 2 + 1) as nat));
        assert(d[n - 1] == c[n - 1]);
        lemma_small_mod(t as nat, m as nat);
        lemma_small_mod(y as nat, m as nat);
        lemma_add_mod_noop(pp - y, t, m);
        lemma_sub_mod_noop(pp + t, y, m);
        assert(pp - y + t == pp + t - y);
    }
}

/// `c[j + 1] == q[j] + a·q[j + 1]`, with `q[j + 1]` zero past the end.
pub open spec fn quot_rel(c: Seq<int>, a: int, q: Seq<Fr>, j: int) -> bool {
    c[j + 1] == fadd(q[j].val(), fmul(a, if j + 1 < q.len() { q[j + 1].val() } else { 0 }))
}

/// Where `x + a` vanishes at `x`, the value of `c` at `x` is the remainder.
proof fn lemma_remainder(c: Seq<int>, a: int, q: Seq<int>, x: int)
    requires
        is_linear_quotient(c, a, q),
        canonical(c),
        canonical(q),
        0 <= a < modulus(),
        0 <= x < modulus(),
        c.len() >= 1,
        fadd(x, a) == 0,
    ensures
        peval(c, x) == fsub(c[0], fmul(a, coeff(q, 0))),
{
    let m = modulus();
    lemma_linear_quotient_eval(c, a, q, x);
    lemma_small_mod(0, m as nat);
    let rem = fsub(c[0], fmul(a, coeff(q, 0)));
    lemma_small_mod(rem as nat, m as nat);
    let qx = peval(q, x);
    assert(0 * qx == 0) by (nonlinear_arith);
}

/// A polynomial; `coef[i]` multiplies `x^i`.
pub struct Polynomial {
    pub coef: Vec<Fr>,
}

impl View for Polynomial {
    type V = Seq<int>;

    open spec fn view(&self) -> Seq<int> {
        Seq::new(self.coef@.len(), |i: int| self.coef@[i].val())
    }
}

/// The coefficients of a well-formed polynomial are canonical.
pub proof fn lemma_wf_canonical(p: Polynomial)
    requires
        p.wf(),
    ensures
        canonical(p@),
{
    assert forall|i: int| 0 <= i < p@.len() implies 0 <= #[trigger] p@[i] < modulus() by {
        assert(p.coef@[i].wf());
    }
}

impl Polynomial {
    pub open spec fn wf(&self) -> bool {
        forall|i: int| 0 <= i < self.coef@.len() ==> (#[trigger] self.coef@[i]).wf()
    }

    pub fn new(coef: Vec<Fr>) -> (r: Polynomial)
        ensures
            r.coef@ == coef@,
    {
        Polynomial { coef }
    }

    /// A polynomial of `length` coefficients drawn uniformly from the field;
    /// `None` where the randomness source fails.
    pub fn random(length: usize) -> (r: Option<Polynomial>)
        ensures
            r matches Some(p) ==> p.wf() && p.coef@.len() == length,
    {
        let mut coef: Vec<Fr> = Vec::new();
        let mut i: usize = 0;
        while i < length
            invariant
                i <= length,
                coef@.len() == i,
                forall|k: int| 0 <= k < coef@.len() ==> (#[trigger] coef@[k]).wf(),
            decreases length - i,
        {
            match random_fr() {
                Some(x) => coef.push(x),
                None => {
                    return None;
                },
            }
            i = i + 1;
        }
        Some(Polynomial { coef })
    }

    /// The value of the polynomial at `input`.
    pub fn eval(&self, input: &Fr) -> (r: Fr)
        requires
            self.wf(),
            input.wf(),
        ensures
            r.wf(),
            r.val() == peval(self@, input.val()),
    {
        let n = self.coef.len();
        let mut acc = Fr::zero();
        let mut pw = Fr::one();
        let mut i: usize = 0;
        while i < n
            invariant
                i <= n,
                n == self.coef@.len(),
                self.wf(),
                input.wf(),
                acc.wf(),
                pw.wf(),
                acc.val() == psum(self@, input.val(), i as nat),
                pw.val() == fpow(input.val(), i as nat),
            decreases n - i,
        {
            let t = self.coef[i].times(&pw);
            acc = acc.plus(&t);
            pw = input.times(&pw);
            i = i + 1;
        }
        acc
    }

    /// The coefficient at `i`, zero past the end.
    fn coef_at(&self, i: usize) -> (r: Fr)
        requires
            self.wf(),
        ensures
            r.wf(),
            r.val() == coeff(self@, i as int),
    {
        if i < self.coef.len() {
            self.coef[i]
        } else {
            Fr::zero()
        }
    }

    pub fn add(poly1: &Polynomial, poly2: &Polynomial) -> (r: Polynomial)
        requires
            poly1.wf(),
            poly2.wf(),
        ensures
            r.wf(),
            r@ == padd(poly1@, poly2@),
    {
        let n = if poly1.coef.len() >= poly2.coef.len() {
            poly1.coef.len()
        } else {
            poly2.coef.len()
        };
        let mut coef: Vec<Fr> = Vec::new();
        let mut i: usize = 0;
        while i < n
            invariant
                i <= n,
                n == max_len(poly1@, poly2@),
                poly1.wf(),
                poly2.wf(),
                coef@.len() == i,
                forall|k: int| 0 <= k < i ==> (#[trigger] coef@[k]).wf() && coef@[k].val() == fadd(
                    coeff(poly1@, k),
                    coeff(poly2@, k),
                ),
            decreases n - i,
        {
            let c = poly1.coef_at(i).plus(&poly2.coef_at(i));
            coef.push(c);
            i = i + 1;
        }
        let r = Polynomial { coef };
        assert(r@ =~= padd(poly1@, poly2@));
        r
    }

    pub fn sub(poly1: &Polynomial, poly2: &Polynomial) -> (r: Polynomial)
        requires
            poly1.wf(),
            poly2.wf(),
        ensures
            r.wf(),
            r@ == psub(poly1@, poly2@),
    {
        let n = if poly1.coef.len() >= poly2.coef.len() {
            poly1.coef.len()
        } else {
            poly2.coef.len()
        };
        let mut coef: Vec<Fr> = Vec::new();
        let mut i: usize = 0;
        while i < n
            invariant
                i <= n,
                n == max_len(poly1@, poly2@),
                poly1.wf(),
                poly2.wf(),
                coef@.len() == i,
                forall|k: int| 0 <= k < i ==> (#[trigger] coef@[k]).wf() && coef@[k].val() == fsub(
                    coeff(poly1@, k),
                    coeff(poly2@, k),
                ),
            decreases n - i,
        {
            let c = poly1.coef_at(i).minus(&poly2.coef_at(i));
            coef.push(c);
            i = i + 1;
        }
        let r = Polynomial { coef };
        assert(r@ =~= psub(poly1@, poly2@));
        r
    }

    pub fn mul(poly1: &Polynomial, poly2: &Polynomial) -> (r: Polynomial)
        requires
            poly1.wf(),
            poly2.wf(),
            poly1.coef@.len() + poly2.coef@.len() <= usize::MAX,
        ensures
            r.wf(),
            r@ == pmul(poly1@, poly2@),
    {
        let la = poly1.coef.len();
        let lb = poly2.coef.len();
        let mut coef: Vec<Fr> = Vec::new();
        if la == 0 || lb == 0 {
            let r = Polynomial { coef };
            assert(r@ =~= pmul(poly1@, poly2@));
            return r;
        }
        let n = la + lb - 1;
        let mut k: usize = 0;
        while k < n
            invariant
                k <= n,
                n == la + lb - 1,
                la == poly1.coef@.len(),
                lb == poly2.coef@.len(),
                la > 0,
                lb > 0,
                poly1.wf(),
                poly2.wf(),
                coef@.len() == k,
                forall|j: int| 0 <= j < k ==> (#[trigger] coef@[j]).wf() && coef@[j].val() == conv(
                    poly1@,
                    poly2@,
                    j,
                    la as nat,
                ),
            decreases n - k,
        {
            let mut acc = Fr::zero();
            let mut i: usize = 0;
            while i < la
                invariant
                    i <= la,
                    k < n,
                    n == la + lb - 1,
                    la == poly1.coef@.len(),
                    lb == poly2.coef@.len(),
                    poly1.wf(),
                    poly2.wf(),
                    acc.wf(),
                    acc.val() == conv(poly1@, poly2@, k as int, i as nat),
                decreases la - i,
            {
                if i <= k && k - i < lb {
                    let t = poly1.coef[i].times(&poly2.coef[k - i]);
                    acc = acc.plus(&t);
                } else {
                    assert(acc.val() % modulus() == acc.val()) by {
                        lemma_small_mod(acc.val() as nat, modulus() as nat);
                    }
                }
                i = i + 1;
            }
            coef.push(acc);
            k = k + 1;
        }
        let r = Polynomial { coef };
        assert(r@ =~= pmul(poly1@, poly2@));
        r
    }

    /// Synthetic division by the monic linear polynomial `poly2 = x + a`: the quotient
    /// of `poly1`, any remainder dropped.
    #[verifier::rlimit(100)]
    fn quotient_by_linear(poly1: &Polynomial, poly2: &Polynomial) -> (r: Polynomial)
        requires
            poly1.wf(),
            poly2.wf(),
            poly2@.len() == 2,
            poly2@[1] == 1,
        ensures
            r.wf(),
            is_linear_quotient(poly1@, poly2@[0], r@),
    {
        let n = poly1.coef.len();
        let mut coef: Vec<Fr> = Vec::new();
        if n <= 1 {
            let r = Polynomial { coef };
            return r;
        }
        let mut i: usize = 0;
        while i < n - 1
            invariant
                i <= n - 1,
                coef@.len() == i,
                forall|k: int| 0 <= k < coef@.len() ==> (#[trigger] coef@[k]).wf(),
            decreases n - 1 - i,
        {
            coef.push(Fr::zero());
            i = i + 1;
        }
        let a = poly2.coef[0];
        let mut k: usize = n - 1;
        while k > 0
            invariant
                k <= n - 1,
                n == poly1.coef@.len(),
                n > 1,
                poly1.wf(),
                a.wf(),
                a.val() == poly2@[0],
                coef@.len() == n - 1,
                forall|j: int| 0 <= j < coef@.len() ==> (#[trigger] coef@[j]).wf(),
                forall|j: int| k <= j < n - 1 ==> #[trigger] quot_rel(poly1@, a.val(), coef@, j),
            decreases k,
        {
            k = k - 1;
            let above = if k + 1 < n - 1 {
                coef[k + 1]
            } else {
                Fr::zero()
            };
            let m = a.times(&above);
            let c = poly1.coef[k + 1].minus(&m);
            proof {
                lemma_sub_then_add(poly1@[k + 1], m.val(), modulus());
            }
            let ghost before = coef@;
            coef.set(k, c);
            assert forall|j: int| k <= j < n - 1 implies #[trigger] quot_rel(
                poly1@,
                a.val(),
                coef@,
                j,
            ) by {
                if j > k {
                    assert(quot_rel(poly1@, a.val(), before, j));
                    assert(coef@[j] == before[j]);
                    if j + 1 < n - 1 {
                        assert(coef@[j + 1] == before[j + 1]);
                    }
                }
            }
        }
        let r = Polynomial { coef };
        assert forall|j: int| 0 <= j < r@.len() implies poly1@[j + 1] == fadd(
            r@[j],
            fmul(poly2@[0], coeff(r@, j + 1)),
        ) by {
            assert(quot_rel(poly1@, a.val(), coef@, j));
        }
        r
    }

    /// Exact division by the monic linear polynomial `poly2 = x + a`: the quotient
    /// when `-a` is a root of `poly1`, and `DivisionInvariantViolation` when the
    /// remainder is not zero.
    pub fn div(poly1: &Polynomial, poly2: &Polynomial) -> (r: Result<Polynomial, KzgError>)
        requires
            poly1.wf(),
            poly2.wf(),
            poly2@.len() == 2,
            poly2@[1] == 1,
        ensures
            r is Ok <==> peval(poly1@, fsub(0, poly2@[0])) == 0,
            r matches Err(e) ==> e == KzgError::DivisionInvariantViolation,
            r matches Ok(q) ==> q.wf() && is_linear_quotient(poly1@, poly2@[0], q@),
    {
        let q = Polynomial::quotient_by_linear(poly1, poly2);
        let ghost root = fsub(0, poly2@[0]);
        proof {
            let m = modulus();
            assert(poly2.coef@[0].wf());
            lemma_sub_then_add(0, poly2@[0], m);
            assert(fadd(root, poly2@[0]) == 0);
        }
        if poly1.coef.len() == 0 {
            return Ok(q);
        }
        let a = poly2.coef[0];
        let rem = poly1.coef[0].minus(&a.times(&q.coef_at(0)));
        proof {
            lemma_wf_canonical(*poly1);
            lemma_wf_canonical(q);
            lemma_remainder(poly1@, a.val(), q@, root);
        }
        if rem.same(&Fr::zero()) {
            Ok(q)
        } else {
            Err(KzgError::DivisionInvariantViolation)
        }
    }

    /// Exact division by `x - root`: the quotient when `root` is a root of
    /// `dividend`, and `DivisionInvariantViolation` when it is not.
    pub fn divide_by_linear(dividend: &Polynomial, root: &Fr) -> (r: Result<Polynomial, KzgError>)
        requires
            dividend.wf(),
            root.wf(),
        ensures
            r is Ok <==> peval(dividend@, root.val()) == 0,
            r matches Err(e) ==> e == KzgError::DivisionInvariantViolation,
            r matches Ok(q) ==> q.wf() && is_linear_quotient(dividend@, fsub(0, root.val()), q@),
    {
        let a = Fr::zero().minus(root);
        let mut dcoef: Vec<Fr> = Vec::new();
        dcoef.push(a);
        dcoef.push(Fr::one());
        let divisor = Polynomial { coef: dcoef };
        assert(divisor@[1] == 1);
        proof {
            let m = modulus();
            lemma_small_mod(root.val() as nat, m as nat);
            lemma_sub_mod_noop_right(0, 0 - root.val(), m);
            assert(fsub(0, a.val()) == root.val());
        }
        Polynomial::div(dividend, &divisor)
    }
}

} // verus!
