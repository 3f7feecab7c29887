//! Endpoint projection for choreographic protocols.
//!
//! A choreography is one global description of a multi-party message
//! exchange. This library validates such a description (role bounds,
//! structural well-formedness) and projects it, role by role, onto local
//! session types that each participant can execute independently. A
//! registry of pluggable extensions lets third parties contribute new
//! protocol constructs and grammar rules; the grammar composer merges the
//! fixed base grammar with the registered fragments, detecting rule-name
//! conflicts.

use vstd::prelude::*;

pub mod aura;
pub mod extensions;
pub mod grammar;
pub mod local_type;
pub mod message;
pub mod projection;
pub mod protocol;
pub mod role;
pub mod text;

verus! {

/// Largest admissible size of a parameterized role range `[0, size)`.
pub const MAX_RANGE_SIZE: u64 = 256;

/// Largest admissible number of roles declared by one choreography.
pub const MAX_ROLE_COUNT: u64 = 64;

/// Exclusive upper bound on any concrete index used to address a
/// member of a parameterized role family.
pub const MAX_ROLE_INDEX: u64 = 256;

} // verus!
