//! Building blocks for declaring fuzzy-logic inference engines.
//!
//! The crate offers a small declarative core: interchangeable fuzzy norms
//! (minimum and maximum over truth degrees), membership functions with a
//! triangular reference implementation, discrete sampling of a continuous
//! universe of discourse, and the [`Blueprint`] aggregate that ties named
//! input and output variables together with the norms chosen for an engine.
//!
//! All quantities are exact rationals ([`rat::Rat`]), so every degree and
//! every sample point is computed without rounding.

pub mod blueprint;
pub mod fuzzy;
pub mod rat;
pub mod util;

pub use blueprint::Blueprint;
pub use rat::Rat;
