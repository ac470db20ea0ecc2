//! The referees: sole authority over the legality and the outcome of a move.

pub mod faster_referee_v1;
pub mod naive_referee;
pub mod rules;

pub use faster_referee_v1::FasterRefereeV1;
pub use naive_referee::NaiveReferee;
