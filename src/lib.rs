//! Control logic of the symmetric tridiagonal QR eigen-iteration: deflation of converged
//! off-diagonal entries, choice of the active window and of the step to run on it, and the
//! global iteration budget. The floating-point work is done by the caller, who reports the
//! outcome of each tolerance comparison as plain flags.

pub mod deflation;
pub mod driver;
