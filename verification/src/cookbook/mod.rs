//! Tutorial recipes, from single knots to a chamber-scale puzzle, each run
//! on a scripted host with its outputs checked frame by frame.

pub mod helpers;
pub mod tier_a;
pub mod tier_b;
pub mod tier_c;
pub mod tier_d;
