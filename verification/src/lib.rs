//! The simulation core of a game of souls.
//!
//! A population of souls lives on a square map. Each soul has a karma, which
//! alone decides whether it is a shadow, neutral, luminal or eternal, and
//! which is swayed by the souls around it. The player guides good souls with
//! a pointer, gathers the energy they yield, and spends it on blessings that
//! retune the simulation.
//!
//! All quantities are whole numbers: lengths in thousandths of a pixel, time
//! in ticks of a microsecond, karma and shares in millionths. Chance, the
//! clock and the pointer come from outside, as plain values handed to
//! [`state::State::update`].
//!
//! - [`fixed`]: rates over time, integer roots, rounding.
//! - [`geometry`]: points, boxes, steps and pushes.
//! - [`spatial`]: the index of a frame, which answers what is near.
//! - [`souls`]: souls and their kinds.
//! - [`overlap`]: the pass that pushes crowded souls apart.
//! - [`karma`]: the spread of karma among neighbours.
//! - [`params`]: blessings, their levels and the tuning they amount to.
//! - [`price`]: what a level of a blessing costs.
//! - [`state`]: the whole, advanced frame by frame.

pub mod fixed;
pub mod geometry;
pub mod karma;
pub mod overlap;
pub mod params;
pub mod price;
pub mod souls;
pub mod spatial;
pub mod state;
