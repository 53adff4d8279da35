# misarta

Rigid-body kinematics and dynamics, collision queries, inverse kinematics, mesh processing and
Collada files for robots, written in Verus.

- `src/` is the library.  Every function in it is verified against the contract in its header.
  Real numbers are kept as bit patterns of doubles; comparing, selecting, ordering and indexing
  them is proved here, while adding, multiplying and taking roots is handed in by the caller
  through the numeric traits (`SpatialMath`, `LinearMath`, `MeshNumerics` and others).  Nothing is
  assumed of what such a trait returns: a contract says which operations are applied to which
  values, in which order, and what is done with the results.
- `tests/` runs the library on doubles, with nalgebra and parry behind the numeric traits.
- `app/` holds the same arithmetic for programs that use the library, file access, the TOML form of
  configurations, and progress that a user interface can poll.

Laws that span several functions are public proof functions.  Some to start from:
`dae_back::written_mesh_comes_back` and the contract of `collada::load_dae_string` (a mesh that is
written is read again), `quotient::reduction_is_a_quotient` (collapsing edges merges vertices and
drops triangles, nothing else), `crba::mass_matrix_is_symmetric`,
`limits::clamped_configuration_is_within`, `sphere_tree::spheres_are_limited`, and
`ik::convergence_is_a_small_error`.

Two things are taken on trust, and their doc comments say what: `roxmltree::Document::parse`
(`xml::parse_xml`) and `String::push` (in `text`).
