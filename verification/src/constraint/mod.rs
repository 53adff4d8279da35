//! Rigid constraints between frames: loop closures, cross-branch tasks and relative poses.
//!
//! A constraint asks for a relative placement of two frames.  The error is how far the actual
//! placement is from it, and the Jacobian maps velocities to the rate of the error.

pub mod error;
pub mod goal;
pub mod ik;
pub mod jacobian;
pub mod qp_ik;
pub mod types;

pub use crate::constraint::error::{compute_constraint_error, compute_constraint_error_from_data};
pub use crate::constraint::ik::{solve_constrained_ik, solve_frame_task_with_constraints, solve_task_with_constraints, ConstrainedIkConfig, ConstrainedIkResult};
pub use crate::constraint::jacobian::{compute_constraint_jacobian, compute_constraint_jacobian_from_data};
pub use crate::constraint::qp_ik::{build_joint_limit_inequalities, build_max_step_inequalities, solve_constrained_ik_qp, solve_frame_task_with_constraints_qp, solve_task_with_constraints_qp, stack_inequalities, QpIkConfig};
pub use crate::constraint::types::{ConstraintModel, ConstraintType, ReferenceFrame, RigidConstraint};
