//! How velocities change the errors of constraints.

use vstd::prelude::*;
use crate::constraint::types;
use crate::fk;
use crate::frames;
use crate::jacobian;
use crate::pose;
use crate::constraint::types::{ConstraintModel, ReferenceFrame, RigidConstraint};
use crate::data::{repeat, Data};
use crate::fk::forward_kinematics;
use crate::frames::{compute_frame_jacobian_from_data, compute_frame_placement_from_data, Frame};
use crate::jacobian::subtract_columns;
use crate::matrix::Matrix;
use crate::model::Model;
use crate::number::Real;
use crate::pose::{turn_back, PoseMath};
use crate::spatial;
use crate::spatial::{component, Motion, Placement, SpatialMath};

verus! {

/// Whether `jac` is the Jacobian of a frame, which is zero for a frame of the world.
pub open spec fn side<K: SpatialMath>(k: &K, m: Model, d: Data, f: Frame, jac: Seq<Motion>) -> bool {
    if f.parent_joint == 0 {
        jac == Seq::new(m.nv as nat, |c: int| Motion::zero())
    } else {
        frames::frame_jacobian(k, m, d, f, jac)
    }
}

fn compute_side<K: SpatialMath>(k: &K, model: &Model, data: &Data, frame: &Frame) -> (jac: Vec<Motion>)
    requires
        model.wf(),
        data.fits(*model),
        frame.parent_joint < model.joints@.len(),
    ensures
        jac@.len() == model.nv,
        side(k, *model, *data, *frame, jac@),
{
    if frame.parent_joint == 0 {
        repeat(Motion::zero(), model.nv)
    } else {
        compute_frame_jacobian_from_data(k, model, data, frame)
    }
}

/// Whether the columns `r` are those of `a`, as seen from the first frame of a constraint.
pub open spec fn seen_from_first<K: SpatialMath + PoseMath>(
    k: &K,
    d: Data,
    c: RigidConstraint,
    a: Seq<Motion>,
    r: Seq<Motion>,
) -> bool {
    exists|x: Placement|
        {
            &&& #[trigger] call_ensures(
                K::compose,
                (k, d.oMi@[c.frame1.parent_joint as int], c.frame1.placement),
                x,
            )
            &&& r.len() == a.len()
            &&& forall|i: int| 0 <= i < r.len() ==> pose::turned_back(k, x, a[i], #[trigger] r[i])
        }
}

/// Whether `r` is the motion of the second frame of a constraint relative to the first, for
/// each number of the velocity.
pub open spec fn relative_columns<K: SpatialMath + PoseMath>(
    k: &K,
    m: Model,
    d: Data,
    c: RigidConstraint,
    r: Seq<Motion>,
) -> bool {
    exists|j1: Seq<Motion>, j2: Seq<Motion>, diff: Seq<Motion>|
        {
            &&& #[trigger] side(k, m, d, c.frame1, j1)
            &&& #[trigger] side(k, m, d, c.frame2, j2)
            &&& #[trigger] jacobian::columns_differ_by(k, j2, j1, diff)
            &&& match c.reference_frame {
                ReferenceFrame::World => r == diff,
                ReferenceFrame::Local => seen_from_first(k, d, c, diff, r),
            }
        }
}

fn compute_relative_columns<K: SpatialMath + PoseMath>(
    k: &K,
    model: &Model,
    data: &Data,
    c: &RigidConstraint,
) -> (r: Vec<Motion>)
    requires
        model.wf(),
        data.fits(*model),
        c.frame1.parent_joint < model.joints@.len(),
        c.frame2.parent_joint < model.joints@.len(),
    ensures
        r@.len() == model.nv,
        relative_columns(k, *model, *data, *c, r@),
{
    let j1 = compute_side(k, model, data, &c.frame1);
    let j2 = compute_side(k, model, data, &c.frame2);
    let diff = subtract_columns(k, &j2, &j1);
    assert(side(k, *model, *data, c.frame1, j1@));
    assert(side(k, *model, *data, c.frame2, j2@));
    assert(jacobian::columns_differ_by(k, j2@, j1@, diff@));
    match c.reference_frame {
        ReferenceFrame::World => diff,
        ReferenceFrame::Local => {
            let x = compute_frame_placement_from_data(k, data, &c.frame1);
            let mut r: Vec<Motion> = Vec::new();
            for i in 0..diff.len()
                invariant
                    r@.len() == i,
                    forall|j: int| 0 <= j < i ==> pose::turned_back(k, x, diff@[j], #[trigger] r@[j]),
            {
                r.push(turn_back(k, x, diff[i]));
            }
            assert(seen_from_first(k, *data, *c, diff@, r@));
            r
        },
    }
}

/// The last numbers of the columns, as many as a constraint has rows: the number in row `t`
/// of column `c`.
pub open spec fn row_entry(c: RigidConstraint, columns: Seq<Motion>, t: int, col: int) -> Real {
    spatial::six_of(columns[col])[t + 6 - c.constraint_type.dim()]
}

/// Whether the rows of constraint `i` in `jac` are those of its Jacobian.
pub open spec fn rows_at<K: SpatialMath + PoseMath>(
    k: &K,
    m: Model,
    d: Data,
    cs: Seq<RigidConstraint>,
    i: int,
    jac: Matrix,
) -> bool {
    exists|columns: Seq<Motion>|
        {
            &&& #[trigger] relative_columns(k, m, d, cs[i], columns)
            &&& forall|t: int, col: int|
                0 <= t < cs[i].constraint_type.dim() && 0 <= col < m.nv ==> jac.at(
                    types::rows_before(cs, i) + t,
                    col,
                ) == #[trigger] row_entry(cs[i], columns, t, col)
        }
}

/// Whether `jac` holds the Jacobians of the first `n` constraints, one below the other.
pub open spec fn stacked_rows<K: SpatialMath + PoseMath>(
    k: &K,
    m: Model,
    d: Data,
    cs: Seq<RigidConstraint>,
    n: int,
    jac: Matrix,
) -> bool {
    &&& jac.sized(types::rows_before(cs, n), m.nv as int)
    &&& forall|i: int| 0 <= i < n ==> #[trigger] rows_at(k, m, d, cs, i, jac)
}

/// Adds the rows of a constraint with the given columns.
fn push_rows(c: &RigidConstraint, columns: &Vec<Motion>, jac: &mut Matrix)
    requires
        old(jac).wf(),
        columns@.len() == old(jac).cols,
    ensures
        final(jac).sized(old(jac).height() + c.constraint_type.dim(), old(jac).cols as int),
        forall|r: int| 0 <= r < old(jac).height() ==> #[trigger] final(jac).rows@[r] == old(jac).rows@[r],
        forall|t: int, col: int|
            0 <= t < c.constraint_type.dim() && 0 <= col < old(jac).cols ==> final(jac).at(
                old(jac).height() + t,
                col,
            ) == #[trigger] row_entry(*c, columns@, t, col),
{
    let ghost start = *jac;
    let dim: usize = c.dim();
    let width: usize = columns.len();
    for t in 0..dim
        invariant
            dim == c.constraint_type.dim(),
            width == columns@.len(),
            start.wf(),
            width == start.cols,
            jac.cols == start.cols,
            jac.rows@.len() == start.rows@.len() + t,
            forall|r: int| 0 <= r < jac.rows@.len() ==> (#[trigger] jac.rows@[r])@.len() == width,
            forall|r: int| 0 <= r < start.rows@.len() ==> #[trigger] jac.rows@[r] == start.rows@[r],
            forall|x: int, col: int|
                0 <= x < t && 0 <= col < width ==> jac.rows@[start.rows@.len() + x]@[col]
                    == #[trigger] row_entry(*c, columns@, x, col),
    {
        let mut row: Vec<Real> = Vec::new();
        for col in 0..width
            invariant
                dim == c.constraint_type.dim(),
                width == columns@.len(),
                t < dim,
                row@.len() == col,
                forall|y: int|
                    0 <= y < col ==> #[trigger] row@[y] == row_entry(*c, columns@, t as int, y),
        {
            row.push(component(columns[col], t + (6 - dim)));
        }
        let ghost before = jac.rows@;
        jac.rows.push(row);
        assert forall|x: int, col: int|
            0 <= x < t + 1 && 0 <= col < width implies jac.rows@[start.rows@.len() + x]@[col]
            == #[trigger] row_entry(*c, columns@, x, col) by {
            if x < t {
                assert(jac.rows@[start.rows@.len() + x] == before[start.rows@.len() + x]);
            } else {
                assert(row@[col] == row_entry(*c, columns@, t as int, col));
            }
        }
    }
}

/// Jacobians of all constraints, for joints that have been placed.
pub fn compute_constraint_jacobian_from_data<K: SpatialMath + PoseMath>(
    k: &K,
    model: &Model,
    data: &Data,
    cm: &ConstraintModel,
) -> (jac: Matrix)
    requires
        model.wf(),
        data.fits(*model),
        cm.fits(model.joints@.len() as int),
    ensures
        jac.sized(cm.height(), model.nv as int),
        stacked_rows(k, *model, *data, cm.constraints@, cm.constraints@.len() as int, jac),
{
    let mut jac = Matrix { rows: Vec::new(), cols: model.nv };
    for i in 0..cm.constraints.len()
        invariant
            model.wf(),
            data.fits(*model),
            cm.fits(model.joints@.len() as int),
            stacked_rows(k, *model, *data, cm.constraints@, i as int, jac),
    {
        let ghost cs = cm.constraints@;
        let ghost before = jac;
        assert(cs[i as int].frame1.parent_joint < model.joints@.len());
        let columns = compute_relative_columns(k, model, data, &cm.constraints[i]);
        push_rows(&cm.constraints[i], &columns, &mut jac);
        assert forall|j: int| 0 <= j < i + 1 implies #[trigger] rows_at(
            k,
            *model,
            *data,
            cs,
            j,
            jac,
        ) by {
            types::rows_are_monotone(cs, 0, j);
            if j < i {
                types::rows_are_monotone(cs, j + 1, i as int);
                assert(rows_at(k, *model, *data, cs, j, before));
                let w = choose|w: Seq<Motion>|
                    {
                        &&& #[trigger] relative_columns(k, *model, *data, cs[j], w)
                        &&& forall|t: int, col: int|
                            0 <= t < cs[j].constraint_type.dim() && 0 <= col < model.nv ==> before.at(
                                types::rows_before(cs, j) + t,
                                col,
                            ) == #[trigger] row_entry(cs[j], w, t, col)
                    };
                assert(relative_columns(k, *model, *data, cs[j], w));
                assert forall|t: int, col: int|
                    0 <= t < cs[j].constraint_type.dim() && 0 <= col < model.nv implies jac.at(
                    types::rows_before(cs, j) + t,
                    col,
                ) == #[trigger] row_entry(cs[j], w, t, col) by {
                    assert(jac.rows@[types::rows_before(cs, j) + t] == before.rows@[types::rows_before(cs, j) + t]);
                }
            } else {
                assert(relative_columns(k, *model, *data, cs[j], columns@));
            }
        }
    }
    jac
}

/// Jacobians of all constraints at a configuration.
pub fn compute_constraint_jacobian<K: SpatialMath + PoseMath>(
    k: &K,
    model: &Model,
    q: &[Real],
    cm: &ConstraintModel,
) -> (jac: Matrix)
    requires
        model.wf(),
        q@.len() == model.nq,
        cm.fits(model.joints@.len() as int),
    ensures
        jac.sized(cm.height(), model.nv as int),
        exists|d: Data|
            {
                &&& d.fits(*model)
                &&& #[trigger] fk::all_placed(k, *model, q@, d)
                &&& stacked_rows(k, *model, d, cm.constraints@, cm.constraints@.len() as int, jac)
            },
{
    let data = forward_kinematics(k, model, q);
    assert(fk::all_placed(k, *model, q@, data));
    compute_constraint_jacobian_from_data(k, model, &data, cm)
}

// ── Exchanged frames ──

/// Whether two frames are at the same place.
pub open spec fn coincide(f: Frame, g: Frame) -> bool {
    f.parent_joint == g.parent_joint && f.placement == g.placement
}

/// Whether two constraints, as seen in the world, differ in the order of their frames only.
pub open spec fn exchanged(c: RigidConstraint, e: RigidConstraint) -> bool {
    &&& coincide(c.frame1, e.frame2)
    &&& coincide(c.frame2, e.frame1)
    &&& c.constraint_type == e.constraint_type
    &&& c.reference_frame == ReferenceFrame::World
    &&& e.reference_frame == ReferenceFrame::World
}

proof fn sides_repeat_themselves<K: SpatialMath>(
    k: &K,
    m: Model,
    d: Data,
    f: Frame,
    g: Frame,
    a: Seq<Motion>,
    b: Seq<Motion>,
)
    requires
        m.wf(),
        spatial::places_alike(k),
        spatial::columns_alike(k),
        coincide(f, g),
        side(k, m, d, f, a),
        side(k, m, d, g, b),
    ensures
        a == b,
        a.len() == m.nv,
{
    if f.parent_joint != 0 {
        let at = d.oMi@[f.parent_joint as int];
        let x = choose|x: Placement|
            {
                &&& #[trigger] call_ensures(K::compose, (k, at, f.placement), x)
                &&& jacobian::is_jacobian(
                    k,
                    m,
                    d.oMi@,
                    x.translation,
                    f.parent_joint as int,
                    Seq::empty(),
                    a,
                )
            };
        let y = choose|y: Placement|
            {
                &&& #[trigger] call_ensures(K::compose, (k, at, g.placement), y)
                &&& jacobian::is_jacobian(
                    k,
                    m,
                    d.oMi@,
                    y.translation,
                    g.parent_joint as int,
                    Seq::empty(),
                    b,
                )
            };
        assert(x == y);
        jacobian::jacobians_repeat_themselves(
            k,
            m,
            d.oMi@,
            x.translation,
            f.parent_joint as int,
            Seq::empty(),
            a,
            b,
        );
    }
}

proof fn exchanged_columns_are_opposite<K: SpatialMath + PoseMath>(
    k: &K,
    m: Model,
    d: Data,
    c: RigidConstraint,
    e: RigidConstraint,
    a: Seq<Motion>,
    b: Seq<Motion>,
)
    requires
        m.wf(),
        spatial::places_alike(k),
        spatial::columns_alike(k),
        spatial::subtracts_evenly(k),
        exchanged(c, e),
        relative_columns(k, m, d, c, a),
        relative_columns(k, m, d, e, b),
    ensures
        a.len() == m.nv,
        b.len() == m.nv,
        forall|i: int| 0 <= i < m.nv ==> spatial::opposite_motions(#[trigger] a[i], b[i]),
{
    let (c1, c2, x) = choose|j1: Seq<Motion>, j2: Seq<Motion>, diff: Seq<Motion>|
        {
            &&& #[trigger] side(k, m, d, c.frame1, j1)
            &&& #[trigger] side(k, m, d, c.frame2, j2)
            &&& #[trigger] jacobian::columns_differ_by(k, j2, j1, diff)
            &&& a == diff
        };
    let (e1, e2, y) = choose|j1: Seq<Motion>, j2: Seq<Motion>, diff: Seq<Motion>|
        {
            &&& #[trigger] side(k, m, d, e.frame1, j1)
            &&& #[trigger] side(k, m, d, e.frame2, j2)
            &&& #[trigger] jacobian::columns_differ_by(k, j2, j1, diff)
            &&& b == diff
        };
    sides_repeat_themselves(k, m, d, c.frame1, e.frame2, c1, e2);
    sides_repeat_themselves(k, m, d, c.frame2, e.frame1, c2, e1);
    assert forall|i: int| 0 <= i < m.nv implies spatial::opposite_motions(#[trigger] a[i], b[i]) by {
        assert(call_ensures(K::motion_difference, (k, c2[i], c1[i]), a[i]));
        assert(call_ensures(K::motion_difference, (k, c1[i], c2[i]), b[i]));
    }
}

proof fn exchanging_keeps_rows(cs: Seq<RigidConstraint>, es: Seq<RigidConstraint>, n: int)
    requires
        forall|i: int| 0 <= i < n ==> exchanged(#[trigger] cs[i], es[i]),
    ensures
        types::rows_before(cs, n) == types::rows_before(es, n),
    decreases n,
{
    if n > 0 {
        exchanging_keeps_rows(cs, es, n - 1);
        assert(exchanged(cs[n - 1], es[n - 1]));
    }
}

/// Exchanging the two frames of every constraint turns the signs of the Jacobian around, as far as
/// the arithmetic repeats itself and differences are even.
pub proof fn exchanging_frames_turns_signs<K: SpatialMath + PoseMath>(
    k: &K,
    m: Model,
    d: Data,
    cs: Seq<RigidConstraint>,
    es: Seq<RigidConstraint>,
    n: int,
    a: Matrix,
    b: Matrix,
)
    requires
        m.wf(),
        spatial::places_alike(k),
        spatial::columns_alike(k),
        spatial::subtracts_evenly(k),
        0 <= n,
        forall|i: int| 0 <= i < n ==> exchanged(#[trigger] cs[i], es[i]),
        stacked_rows(k, m, d, cs, n, a),
        stacked_rows(k, m, d, es, n, b),
    ensures
        a.height() == b.height(),
        forall|r: int, col: int|
            0 <= r < a.height() && 0 <= col < m.nv ==> (#[trigger] a.at(r, col)).opposite(b.at(r, col)),
{
    exchanging_keeps_rows(cs, es, n);
    assert forall|r: int, col: int| 0 <= r < a.height() && 0 <= col < m.nv implies (#[trigger] a.at(
        r,
        col,
    )).opposite(b.at(r, col)) by {
        let i = row_owner(cs, n, r);
        let t = r - types::rows_before(cs, i);
        exchanging_keeps_rows(cs, es, i);
        assert(exchanged(cs[i], es[i]));
        assert(rows_at(k, m, d, cs, i, a));
        assert(rows_at(k, m, d, es, i, b));
        let x = choose|x: Seq<Motion>|
            {
                &&& #[trigger] relative_columns(k, m, d, cs[i], x)
                &&& forall|t: int, col: int|
                    0 <= t < cs[i].constraint_type.dim() && 0 <= col < m.nv ==> a.at(
                        types::rows_before(cs, i) + t,
                        col,
                    ) == #[trigger] row_entry(cs[i], x, t, col)
            };
        let y = choose|y: Seq<Motion>|
            {
                &&& #[trigger] relative_columns(k, m, d, es[i], y)
                &&& forall|t: int, col: int|
                    0 <= t < es[i].constraint_type.dim() && 0 <= col < m.nv ==> b.at(
                        types::rows_before(es, i) + t,
                        col,
                    ) == #[trigger] row_entry(es[i], y, t, col)
            };
        exchanged_columns_are_opposite(k, m, d, cs[i], es[i], x, y);
        assert(a.at(r, col) == row_entry(cs[i], x, t, col));
        assert(b.at(r, col) == row_entry(es[i], y, t, col));
        assert(spatial::opposite_motions(x[col], y[col]));
    }
}

/// The constraint to which a row belongs.
proof fn row_owner(cs: Seq<RigidConstraint>, n: int, r: int) -> (i: int)
    requires
        0 <= n,
        0 <= r < types::rows_before(cs, n),
    ensures
        0 <= i < n,
        types::rows_before(cs, i) <= r < types::rows_before(cs, i) + cs[i].constraint_type.dim(),
    decreases n,
{
    if r < types::rows_before(cs, n - 1) {
        row_owner(cs, n - 1, r)
    } else {
        n - 1
    }
}

} // verus!
