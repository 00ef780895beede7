//! Constraints, lookups and witness assignment for the copied bytes of EVM
//! opcodes such as CALLDATACOPY, CODECOPY, LOG and SHA3.
pub mod assigned_rows;
pub mod assignment;
pub mod binary_number;
pub mod cell_laws;
pub mod completeness;
pub mod congruence;
pub mod constraint_builder;
pub mod constraint_system;
pub mod copy_circuit;
pub mod copy_event;
pub mod copy_table;
pub mod event_laws;
pub mod expression;
pub mod field;
pub mod gate_laws;
pub mod less_than;
pub mod lookup_laws;
pub mod modulus_prime;
pub mod prime;
pub mod region;
pub mod rlc;
pub mod row;
pub mod soundness;
pub mod sum;
