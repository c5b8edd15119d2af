//! Discrete control logic for a single entity steered in a 2D top-down
//! setting: which keys are held, how keys map to grid directions, and the
//! movement intent that the held keys add up to.
pub mod vector;
pub mod input;
pub mod intent;
