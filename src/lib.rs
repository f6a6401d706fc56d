//! The work-distribution core of a gravitational n-body simulation.
//!
//! Each step's force computation is cut into jobs for a pool of workers
//! (`chunking`), their results are gathered until every body has exactly one
//! (`results`), and only then is the step applied and the clock advanced
//! (`stepper`, `clock`). The pool's shutdown protocol (`pool`) and the workers'
//! synthetic delays and statistics (`worker`) are decided here too, and so is
//! which bodies pull on which (`attractors`). The numbers themselves (positions,
//! velocities, forces) are the caller's: the library is generic over them.

pub mod attractors;
pub mod chunking;
pub mod clock;
pub mod error;
pub mod pool;
pub mod results;
pub mod stepper;
pub mod worker;
