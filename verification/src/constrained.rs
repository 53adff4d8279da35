//! Dynamics under contacts and loop constraints.

use vstd::prelude::*;
use crate::aba;
use crate::algebra;
use crate::crba;
use crate::exact;
use crate::matrix;
use crate::rigid;
use crate::rnea;
use crate::crba::crba;
use crate::matrix::{apply, LinearMath, Matrix};
use crate::model::Model;
use crate::number::Real;
use crate::rnea::nonlinear_effects;
use crate::spatial::SpatialMath;

verus! {

/// Result of constrained forward dynamics.
#[derive(Clone, Debug)]
pub struct ConstrainedDynamicsResult {
    /// Joint accelerations.
    pub qdd: Vec<Real>,
    /// Constraint forces.
    pub lambda: Vec<Real>,
}

/// Result of impact dynamics.
#[derive(Clone, Debug)]
pub struct ImpactResult {
    /// Velocity after the impact.
    pub v_post: Vec<Real>,
    /// Impulse of each constraint.
    pub impulse: Vec<Real>,
}

/// Whether `r` is the matrix `[M Jᵀ; J 0]`.
pub open spec fn is_kkt(m: Matrix, jc: Matrix, r: Matrix) -> bool {
    let nv = m.height();
    let nc = jc.height();
    &&& r.sized(nv + nc, nv + nc)
    &&& forall|i: int, j: int|
        0 <= i < nv + nc && 0 <= j < nv + nc ==> #[trigger] r.at(i, j) == if i < nv && j < nv {
            m.at(i, j)
        } else if i < nv {
            jc.at(j - nv, i)
        } else if j < nv {
            jc.at(i - nv, j)
        } else {
            Real::zero()
        }
}

fn assemble_kkt(m: &Matrix, jc: &Matrix) -> (r: Matrix)
    requires
        m.sized(m.height(), m.height()),
        jc.sized(jc.height(), m.height()),
        m.height() + jc.height() <= usize::MAX,
    ensures
        is_kkt(*m, *jc, r),
{
    let nv: usize = m.rows.len();
    let nc: usize = jc.rows.len();
    let dim: usize = nv + nc;
    let mut rows: Vec<Vec<Real>> = Vec::new();
    for i in 0..dim
        invariant
            nv == m.height(),
            nc == jc.height(),
            dim == nv + nc,
            m.sized(nv as int, nv as int),
            jc.sized(nc as int, nv as int),
            rows@.len() == i,
            forall|x: int| 0 <= x < i ==> (#[trigger] rows@[x])@.len() == dim,
            forall|x: int, j: int|
                0 <= x < i && 0 <= j < dim ==> #[trigger] rows@[x]@[j] == if x < nv && j < nv {
                    m.at(x, j)
                } else if x < nv {
                    jc.at(j - nv, x)
                } else if j < nv {
                    jc.at(x - nv, j)
                } else {
                    Real::zero()
                },
    {
        let mut row: Vec<Real> = Vec::new();
        for j in 0..dim
            invariant
                nv == m.height(),
                nc == jc.height(),
                dim == nv + nc,
                i < dim,
                m.sized(nv as int, nv as int),
                jc.sized(nc as int, nv as int),
                row@.len() == j,
                forall|y: int|
                    0 <= y < j ==> #[trigger] row@[y] == if i < nv && y < nv {
                        m.at(i as int, y)
                    } else if i < nv {
                        jc.at(y - nv, i as int)
                    } else if y < nv {
                        jc.at(i - nv, y)
                    } else {
                        Real::zero()
                    },
        {
            let x = if i < nv && j < nv {
                m.get(i, j)
            } else if i < nv {
                jc.get(j - nv, i)
            } else if j < nv {
                jc.get(i - nv, j)
            } else {
                Real::zero()
            };
            row.push(x);
        }
        rows.push(row);
    }
    Matrix { rows, cols: dim }
}

/// The two parts of a solution, where there is one that has all the unknowns.
pub open spec fn parts(x: Option<Vec<Real>>, nv: int, nc: int) -> Option<(Seq<Real>, Seq<Real>)> {
    match x {
        Some(x) => if x@.len() == nv + nc {
            Some((x@.take(nv), x@.skip(nv)))
        } else {
            None
        },
        None => None,
    }
}

/// Splits a solution into the part of the joints and that of the constraints.
pub fn split_solution(x: Option<Vec<Real>>, nv: usize, nc: usize) -> (r: Option<(Vec<Real>, Vec<Real>)>)
    requires
        nv + nc <= usize::MAX,
    ensures
        r is Some <==> parts(x, nv as int, nc as int) is Some,
        r matches Some(p) ==> Some((p.0@, p.1@)) == parts(x, nv as int, nc as int),
{
    match x {
        Some(x) => {
            if x.len() != nv + nc {
                return None;
            }
            let mut first: Vec<Real> = Vec::new();
            let mut second: Vec<Real> = Vec::new();
            for i in 0..nv
                invariant
                    x@.len() == nv + nc,
                    first@ == x@.take(i as int),
            {
                first.push(x[i]);
                assert(first@ =~= x@.take(i + 1));
            }
            for i in 0..nc
                invariant
                    x@.len() == nv + nc,
                    nv + nc <= usize::MAX,
                    second@ == x@.subrange(nv as int, nv + i),
            {
                second.push(x[nv + i]);
                assert(second@ =~= x@.subrange(nv as int, nv + i + 1));
            }
            assert(second@ =~= x@.skip(nv as int));
            Some((first, second))
        },
        None => None,
    }
}

/// Whether `rhs` is `[τ - h; -γ]`.
pub open spec fn dynamics_rhs<K: SpatialMath>(
    k: &K,
    tau: Seq<Real>,
    h: Seq<Real>,
    gamma: Seq<Real>,
    rhs: Seq<Real>,
) -> bool {
    &&& rhs.len() == tau.len() + gamma.len()
    &&& forall|i: int|
        0 <= i < tau.len() ==> call_ensures(K::difference, (k, tau[i], h[i]), #[trigger] rhs[i])
    &&& forall|i: int|
        tau.len() <= i < rhs.len() ==> #[trigger] rhs[i] == gamma[i - tau.len()].negated()
}

/// Whether `sol` is the answer to the system `[M Jᵀ; J 0] x = rhs`.
pub open spec fn kkt_answer<K: LinearMath>(
    k: &K,
    m: Matrix,
    jc: Matrix,
    rhs: Vec<Real>,
    sol: Option<Vec<Real>>,
) -> bool {
    exists|a: Matrix| is_kkt(m, jc, a) && #[trigger] call_ensures(K::solve_system, (k, &a, &rhs), sol)
}

/// Joint accelerations and constraint forces under constraints with the Jacobian `jc` and
/// the drift `gamma`, unless the system has no solution.
pub fn constrained_forward_dynamics<K: SpatialMath + LinearMath>(
    k: &K,
    model: &Model,
    q: &[Real],
    v: &[Real],
    tau: &[Real],
    jc: &Matrix,
    gamma: &[Real],
) -> (r: Option<ConstrainedDynamicsResult>)
    requires
        model.wf(),
        q@.len() == model.nq,
        v@.len() == model.nv,
        tau@.len() == model.nv,
        jc.sized(jc.height(), model.nv as int),
        gamma@.len() == jc.height(),
        model.nv + jc.height() <= usize::MAX,
    ensures
        exists|m: Matrix, h: Seq<Real>, rhs: Vec<Real>, sol: Option<Vec<Real>>|
            {
                &&& m.sized(model.nv as int, model.nv as int)
                &&& crba::mass_matrix(k, *model, q@, m)
                &&& #[trigger] rnea::inverse_dynamics(k, *model, q@, v@, aba::zeros(model.nv as int), h)
                &&& dynamics_rhs(k, tau@, h, gamma@, rhs@)
                &&& #[trigger] kkt_answer(k, m, *jc, rhs, sol)
                &&& match r {
                    Some(x) => parts(sol, model.nv as int, jc.height()) == Some((x.qdd@, x.lambda@)),
                    None => parts(sol, model.nv as int, jc.height()) is None,
                }
            },
        exact_solutions(k) ==> (r matches Some(x) ==> obeys_constraints(
            k,
            *model,
            q@,
            v@,
            tau@,
            *jc,
            gamma@,
            x,
        )),
{
    let nv: usize = model.nv;
    let nc: usize = jc.rows.len();
    let m = crba(k, model, q);
    let h = nonlinear_effects(k, model, q, v);
    let a = assemble_kkt(&m, jc);
    let mut rhs: Vec<Real> = Vec::new();
    for i in 0..nv
        invariant
            tau@.len() == nv,
            h@.len() == nv,
            rhs@.len() == i,
            forall|j: int| 0 <= j < i ==> call_ensures(K::difference, (k, tau@[j], h@[j]), #[trigger] rhs@[j]),
    {
        rhs.push(k.difference(tau[i], h[i]));
    }
    for i in 0..nc
        invariant
            tau@.len() == nv,
            gamma@.len() == nc,
            rhs@.len() == nv + i,
            forall|j: int| 0 <= j < nv ==> call_ensures(K::difference, (k, tau@[j], h@[j]), #[trigger] rhs@[j]),
            forall|j: int| nv <= j < nv + i ==> #[trigger] rhs@[j] == gamma@[j - nv].negated(),
    {
        rhs.push(gamma[i].neg());
    }
    let sol = k.solve_system(&a, &rhs);
    let ghost answer = sol;
    assert(call_ensures(K::solve_system, (k, &a, &rhs), sol));
    assert(kkt_answer(k, m, *jc, rhs, answer));
    assert(rnea::inverse_dynamics(k, *model, q@, v@, aba::zeros(model.nv as int), h@));
    match split_solution(sol, nv, nc) {
        Some((qdd, lambda)) => {
            let r = ConstrainedDynamicsResult { qdd, lambda };
            proof {
                if exact_solutions(k) {
                    dynamics_obey_constraints(k, *model, q@, v@, tau@, *jc, gamma@, m, h@, rhs, answer, r);
                }
            }
            Some(r)
        },
        None => None,
    }
}

/// Whether `rhs` is `[M v; -e J v]`.
pub open spec fn impact_rhs<K: SpatialMath + LinearMath>(
    k: &K,
    m: Matrix,
    jc: Matrix,
    v: Seq<Real>,
    restitution: Real,
    rhs: Seq<Real>,
) -> bool {
    exists|mv: Seq<Real>, jv: Seq<Real>|
        {
            &&& #[trigger] matrix::applied(k, m, v, mv)
            &&& #[trigger] matrix::applied(k, jc, v, jv)
            &&& rhs.len() == mv.len() + jv.len()
            &&& forall|i: int| 0 <= i < mv.len() ==> #[trigger] rhs[i] == mv[i]
            &&& forall|i: int|
                mv.len() <= i < rhs.len() ==> call_ensures(
                    K::product,
                    (k, restitution.negated(), jv[i - mv.len()]),
                    #[trigger] rhs[i],
                )
        }
}

/// Velocity and impulses after an impact against constraints with the Jacobian `jc`, unless
/// the system has no solution.
pub fn impact_dynamics<K: SpatialMath + LinearMath>(
    k: &K,
    model: &Model,
    q: &[Real],
    v_pre: &Vec<Real>,
    jc: &Matrix,
    restitution_coeff: Real,
) -> (r: Option<ImpactResult>)
    requires
        model.wf(),
        q@.len() == model.nq,
        v_pre@.len() == model.nv,
        jc.sized(jc.height(), model.nv as int),
        model.nv + jc.height() <= usize::MAX,
    ensures
        exists|m: Matrix, rhs: Vec<Real>, sol: Option<Vec<Real>>|
            {
                &&& m.sized(model.nv as int, model.nv as int)
                &&& crba::mass_matrix(k, *model, q@, m)
                &&& impact_rhs(k, m, *jc, v_pre@, restitution_coeff, rhs@)
                &&& #[trigger] kkt_answer(k, m, *jc, rhs, sol)
                &&& match r {
                    Some(x) => parts(sol, model.nv as int, jc.height()) == Some((x.v_post@, x.impulse@)),
                    None => parts(sol, model.nv as int, jc.height()) is None,
                }
            },
        exact_solutions(k) ==> (r matches Some(x) ==> keeps_momentum(
            k,
            *model,
            q@,
            v_pre@,
            *jc,
            restitution_coeff,
            x,
        )),
{
    let nv: usize = model.nv;
    let nc: usize = jc.rows.len();
    let m = crba(k, model, q);
    let a = assemble_kkt(&m, jc);
    let mv = apply(k, &m, v_pre);
    let jv = apply(k, jc, v_pre);
    let scale = restitution_coeff.neg();
    let mut rhs: Vec<Real> = Vec::new();
    for i in 0..nv
        invariant
            mv@.len() == nv,
            rhs@.len() == i,
            forall|j: int| 0 <= j < i ==> #[trigger] rhs@[j] == mv@[j],
    {
        rhs.push(mv[i]);
    }
    for i in 0..nc
        invariant
            mv@.len() == nv,
            jv@.len() == nc,
            rhs@.len() == nv + i,
            forall|j: int| 0 <= j < nv ==> #[trigger] rhs@[j] == mv@[j],
            forall|j: int|
                nv <= j < nv + i ==> call_ensures(K::product, (k, scale, jv@[j - nv]), #[trigger] rhs@[j]),
    {
        rhs.push(k.product(scale, jv[i]));
    }
    assert(matrix::applied(k, m, v_pre@, mv@));
    assert(matrix::applied(k, *jc, v_pre@, jv@));
    assert(impact_rhs(k, m, *jc, v_pre@, restitution_coeff, rhs@));
    let sol = k.solve_system(&a, &rhs);
    let ghost answer = sol;
    assert(call_ensures(K::solve_system, (k, &a, &rhs), sol));
    assert(kkt_answer(k, m, *jc, rhs, answer));
    match split_solution(sol, nv, nc) {
        Some((v_post, impulse)) => {
            let r = ImpactResult { v_post, impulse };
            proof {
                if exact_solutions(k) {
                    impacts_keep_momentum(k, *model, q@, v_pre@, *jc, restitution_coeff, m, rhs, answer, r);
                }
            }
            Some(r)
        },
        None => None,
    }
}

// ── What the solutions are ──

/// Whether systems are solved and products are computed exactly, or not at all.
pub open spec fn exact_solutions<K: SpatialMath + LinearMath>(k: &K) -> bool {
    &&& rigid::exact_scalars(k)
    &&& forall|a: Vec<Real>, b: Vec<Real>, r: Real| #[trigger]
        call_ensures(K::inner, (k, &a, &b), r) ==> exact::val(r) == algebra::total(
            a@.len() as int,
            |i: int| exact::val(a@[i]) * exact::val(b@[i]),
        )
    &&& forall|a: Matrix, b: Vec<Real>, x: Option<Vec<Real>>| #[trigger]
        call_ensures(K::solve_system, (k, &a, &b), x) ==> (x matches Some(y) ==> forall|i: int|
            0 <= i < b@.len() ==> exact::val(#[trigger] b@[i]) == along(a, y@, i, b@.len() as int))
}

/// The product of the first `n` numbers of the `i`-th row of a matrix and a vector.
pub open spec fn along(a: Matrix, x: Seq<Real>, i: int, n: int) -> real {
    algebra::total(n, |j: int| exact::val(a.at(i, j)) * exact::val(x[j]))
}

/// The product of the `i`-th column of a matrix and a vector.
pub open spec fn across(a: Matrix, x: Seq<Real>, i: int) -> real {
    algebra::total(a.height(), |j: int| exact::val(a.at(j, i)) * exact::val(x[j]))
}

/// The upper rows of a solution balance the matrix `m` and the forces of the constraints, the lower rows
/// meet the constraints.
proof fn solution_meets_both<K: SpatialMath + LinearMath>(
    k: &K,
    m: Matrix,
    jc: Matrix,
    rhs: Vec<Real>,
    sol: Option<Vec<Real>>,
    x: Seq<Real>,
    y: Seq<Real>,
)
    requires
        exact_solutions(k),
        m.sized(m.height(), m.height()),
        jc.sized(jc.height(), m.height()),
        rhs@.len() == m.height() + jc.height(),
        kkt_answer(k, m, jc, rhs, sol),
        parts(sol, m.height(), jc.height()) == Some((x, y)),
    ensures
        x.len() == m.height(),
        y.len() == jc.height(),
        forall|i: int|
            0 <= i < m.height() ==> exact::val(#[trigger] rhs@[i]) == along(m, x, i, m.height()) + across(jc, y, i),
        forall|i: int|
            0 <= i < jc.height() ==> #[trigger] along(jc, x, i, m.height()) == exact::val(rhs@[m.height() + i]),
{
    let (nv, nc) = (m.height(), jc.height());
    let a = choose|a: Matrix| is_kkt(m, jc, a) && #[trigger] call_ensures(K::solve_system, (k, &a, &rhs), sol);
    let z = sol->0@;
    assert(x =~= z.take(nv) && y =~= z.skip(nv));
    exact::signs_are_of_values(Real::zero());
    assert forall|i: int| 0 <= i < nv implies exact::val(#[trigger] rhs@[i]) == along(m, x, i, nv) + across(jc, y, i) by {
        let f = |j: int| exact::val(a.at(i, j)) * exact::val(z[j]);
        algebra::total_splits(nv, nc, f);
        algebra::total_same(nv, f, |j: int| exact::val(m.at(i, j)) * exact::val(x[j]));
        let (g, h) = (|j: int| f(nv + j), |j: int| exact::val(jc.at(j, i)) * exact::val(y[j]));
        assert forall|j: int| 0 <= j < nc implies #[trigger] g(j) == h(j) by {
            assert(a.at(i, nv + j) == jc.at(j, i));
        }
        algebra::total_same(nc, g, h);
    }
    assert forall|i: int| 0 <= i < nc implies #[trigger] along(jc, x, i, nv) == exact::val(rhs@[nv + i]) by {
        assert(exact::val(rhs@[nv + i]) == along(a, z, nv + i, nv + nc));
        let f = |j: int| exact::val(a.at(nv + i, j)) * exact::val(z[j]);
        algebra::total_splits(nv, nc, f);
        let (g, h) = (|j: int| exact::val(jc.at(i, j)) * exact::val(x[j]), |j: int| f(nv + j));
        assert forall|j: int| 0 <= j < nv implies #[trigger] g(j) == f(j) by {
            assert(a.at(nv + i, j) == jc.at(i, j));
        }
        algebra::total_same(nv, g, f);
        assert forall|j: int| 0 <= j < nc implies #[trigger] h(j) == 0real by {
            assert(a.at(nv + i, nv + j) == Real::zero());
            let u = exact::val(z[nv + j]);
            assert(0real * u == 0real);
        }
        algebra::total_zero(nc, h);
    }
}

/// Whether the accelerations and the constraint forces obey the equations of motion and the constraints:
/// the mass matrix times the accelerations, the forces of velocity and gravity and those of the constraints
/// make up the torques, and the constraints accelerate against their drift.
pub open spec fn obeys_constraints<K: SpatialMath>(
    k: &K,
    model: Model,
    q: Seq<Real>,
    v: Seq<Real>,
    tau: Seq<Real>,
    jc: Matrix,
    gamma: Seq<Real>,
    x: ConstrainedDynamicsResult,
) -> bool {
    exists|m: Matrix, h: Seq<Real>|
        {
            &&& #[trigger] crba::mass_matrix(k, model, q, m)
            &&& #[trigger] rnea::inverse_dynamics(k, model, q, v, aba::zeros(model.nv as int), h)
            &&& forall|i: int|
                0 <= i < model.nv ==> along(m, x.qdd@, i, model.nv as int) + exact::val(h[i]) + across(
                    jc,
                    x.lambda@,
                    i,
                ) == exact::val(#[trigger] tau[i])
            &&& forall|i: int|
                0 <= i < jc.height() ==> along(jc, x.qdd@, i, model.nv as int) + exact::val(#[trigger] gamma[i]) == 0real
        }
}

proof fn dynamics_obey_constraints<K: SpatialMath + LinearMath>(
    k: &K,
    model: Model,
    q: Seq<Real>,
    v: Seq<Real>,
    tau: Seq<Real>,
    jc: Matrix,
    gamma: Seq<Real>,
    m: Matrix,
    h: Seq<Real>,
    rhs: Vec<Real>,
    sol: Option<Vec<Real>>,
    x: ConstrainedDynamicsResult,
)
    requires
        exact_solutions(k),
        tau.len() == model.nv,
        jc.sized(jc.height(), model.nv as int),
        gamma.len() == jc.height(),
        m.sized(model.nv as int, model.nv as int),
        crba::mass_matrix(k, model, q, m),
        rnea::inverse_dynamics(k, model, q, v, aba::zeros(model.nv as int), h),
        dynamics_rhs(k, tau, h, gamma, rhs@),
        kkt_answer(k, m, jc, rhs, sol),
        parts(sol, model.nv as int, jc.height()) == Some((x.qdd@, x.lambda@)),
    ensures
        obeys_constraints(k, model, q, v, tau, jc, gamma, x),
{
    solution_meets_both(k, m, jc, rhs, sol, x.qdd@, x.lambda@);
    let nv = model.nv as int;
    assert forall|i: int| 0 <= i < nv implies along(m, x.qdd@, i, nv) + exact::val(h[i]) + across(jc, x.lambda@, i)
        == exact::val(#[trigger] tau[i]) by {
        assert(call_ensures(K::difference, (k, tau[i], h[i]), rhs@[i]));
    }
    assert forall|i: int| 0 <= i < jc.height() implies along(jc, x.qdd@, i, nv) + exact::val(#[trigger] gamma[i])
        == 0real by {
        assert(rhs@[nv + i] == gamma[nv + i - nv].negated());
        exact::signs_are_of_values(gamma[i]);
    }
}

/// Whether velocity and impulses after an impact keep the momentum but for the impulses, and the constraints
/// part with the given share of the speed that they met with.
pub open spec fn keeps_momentum<K: SpatialMath>(
    k: &K,
    model: Model,
    q: Seq<Real>,
    v: Seq<Real>,
    jc: Matrix,
    restitution: Real,
    x: ImpactResult,
) -> bool {
    exists|m: Matrix|
        {
            &&& #[trigger] crba::mass_matrix(k, model, q, m)
            &&& forall|i: int|
                0 <= i < model.nv ==> #[trigger] along(m, x.v_post@, i, model.nv as int) + across(jc, x.impulse@, i)
                    == along(m, v, i, model.nv as int)
            &&& forall|i: int|
                0 <= i < jc.height() ==> #[trigger] along(jc, x.v_post@, i, model.nv as int) == -exact::val(
                    restitution,
                ) * along(jc, v, i, model.nv as int)
        }
}

proof fn applied_in_values<K: SpatialMath + LinearMath>(k: &K, a: Matrix, x: Seq<Real>, r: Seq<Real>, i: int)
    requires
        exact_solutions(k),
        a.wf(),
        matrix::applied(k, a, x, r),
        0 <= i < a.height(),
    ensures
        exact::val(r[i]) == along(a, x, i, a.cols as int),
{
    assert(matrix::inner_of(k, a.rows@[i]@, x, r[i]));
    let (u, v) = choose|u: Vec<Real>, v: Vec<Real>|
        u@ == a.rows@[i]@ && v@ == x && #[trigger] call_ensures(K::inner, (k, &u, &v), r[i]);
    algebra::total_same(
        a.cols as int,
        |j: int| exact::val(u@[j]) * exact::val(v@[j]),
        |j: int| exact::val(a.at(i, j)) * exact::val(x[j]),
    );
}

proof fn impacts_keep_momentum<K: SpatialMath + LinearMath>(
    k: &K,
    model: Model,
    q: Seq<Real>,
    v: Seq<Real>,
    jc: Matrix,
    restitution: Real,
    m: Matrix,
    rhs: Vec<Real>,
    sol: Option<Vec<Real>>,
    x: ImpactResult,
)
    requires
        exact_solutions(k),
        jc.sized(jc.height(), model.nv as int),
        m.sized(model.nv as int, model.nv as int),
        crba::mass_matrix(k, model, q, m),
        impact_rhs(k, m, jc, v, restitution, rhs@),
        kkt_answer(k, m, jc, rhs, sol),
        parts(sol, model.nv as int, jc.height()) == Some((x.v_post@, x.impulse@)),
    ensures
        keeps_momentum(k, model, q, v, jc, restitution, x),
{
    let (mv, jv) = choose|mv: Seq<Real>, jv: Seq<Real>|
        {
            &&& #[trigger] matrix::applied(k, m, v, mv)
            &&& #[trigger] matrix::applied(k, jc, v, jv)
            &&& rhs@.len() == mv.len() + jv.len()
            &&& forall|i: int| 0 <= i < mv.len() ==> #[trigger] rhs@[i] == mv[i]
            &&& forall|i: int|
                mv.len() <= i < rhs@.len() ==> call_ensures(
                    K::product,
                    (k, restitution.negated(), jv[i - mv.len()]),
                    #[trigger] rhs@[i],
                )
        };
    solution_meets_both(k, m, jc, rhs, sol, x.v_post@, x.impulse@);
    let nv = model.nv as int;
    exact::signs_are_of_values(restitution);
    assert forall|i: int| 0 <= i < nv implies #[trigger] along(m, x.v_post@, i, nv) + across(jc, x.impulse@, i)
        == along(m, v, i, nv) by {
        assert(rhs@[i] == mv[i]);
        applied_in_values(k, m, v, mv, i);
    }
    assert forall|i: int| 0 <= i < jc.height() implies #[trigger] along(jc, x.v_post@, i, nv) == -exact::val(restitution)
        * along(jc, v, i, nv) by {
        assert(call_ensures(K::product, (k, restitution.negated(), jv[nv + i - nv]), rhs@[nv + i]));
        applied_in_values(k, jc, v, jv, i);
    }
}

} // verus!
