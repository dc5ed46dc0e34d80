//! Real-time chord detection: pitch-class profiles, ranking of chord
//! hypotheses, and the integer bookkeeping of a streaming chromagram.

pub mod chord_detector;
pub mod chromagram;

pub use chord_detector::{ChordError, ChordKind, ChordMatch, NoteName, ProfileBank};
pub use chromagram::{ChromagramBuilder, ChromagramConfig, ChromagramError};
