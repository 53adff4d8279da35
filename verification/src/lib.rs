//! Structure and control flow of a robot kinematics library, proved correct.
//!
//! Real numbers are kept as IEEE-754 bit patterns ([`number::Real`]).  What only
//! compares, selects, indexes or rearranges them is computed here; what adds,
//! multiplies or takes roots is supplied by the caller through the numeric
//! traits, about which nothing is taken for granted: every contract speaks of
//! whatever values the supplied arithmetic returned.

// Numbers, texts and tables.
pub mod number;
pub mod numerics;
pub mod text;
pub mod words;
pub mod table;
pub mod interner;
pub mod heap;

// Meshes.
pub mod mesh;
pub mod quotient;
pub mod collapse;
pub mod cluster;
pub mod decimate;
pub mod decompose;
pub mod sphere_tree;
pub mod primitive;

// Documents.
pub mod xml;
pub mod element;
pub mod markup;
pub mod collada;
pub mod dae_read;
pub mod dae_mesh;
pub mod dae_geom;
pub mod dae_merge;
pub mod dae_text;
pub mod dae_tree;
pub mod dae_numbers;
pub mod dae_looks;
pub mod dae_shapes;
pub mod dae_plain;
pub mod dae_back;

// Models and their motion.
pub mod joint;
pub mod model;
pub mod spatial;
pub mod data;
pub mod manifold;
pub mod limits;
pub mod pose;
pub mod frames;
pub mod fk;
pub mod jacobian;

// Dynamics.
pub mod matrix;
pub mod rnea;
pub mod crba;
pub mod release;
pub mod aba;
pub mod aba_derivatives;
pub mod coriolis;
pub mod centroidal;
pub mod constrained;
pub mod analysis;

// What kinematics and dynamics come to where arithmetic does not round.
pub mod algebra;
pub mod exact;
pub mod rigid;
pub mod reach;
pub mod bulk;
pub mod energy;
pub mod power;
pub mod inertial;
pub mod balance;

// Collisions.
pub mod geometry;
pub mod collision;

// Inverse kinematics.
pub mod descent;
pub mod least_squares;
pub mod constraint;
pub mod ik_solver;
pub mod ik;
pub mod ik_nullspace;
pub mod ik_differential;

// Configuration files.
pub mod config;
