//! Differences between pairs of IEEE-754 double-precision values, with the
//! special-value policy (NaN, signed zero, infinities, cyclic domains, ULPs)
//! stated and proved over bit patterns, plus the bookkeeping that summarises a
//! stream of such comparisons.
pub mod binary64;
pub mod diff;
pub mod diff_part_summary;
pub mod diff_summary;
pub mod log_histogram;
pub mod text;
pub mod util;
