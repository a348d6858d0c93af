//! In-memory model of G-code commands and of the state of a simple gantry.
//!
//! The command model ([`Gcode`], [`Word`], [`Mnemonic`], [`Span`]) says how a
//! command is built up from a mnemonic, a number and lettered arguments. The
//! state model ([`State`]) says how a bare number is read as a length or a
//! speed under the active unit system.

pub mod arguments;
pub mod binary32;
pub mod gcode;
pub mod mnemonic;
pub mod quotient;
pub mod span;
pub mod state;
pub mod text;
pub mod word;

pub use arguments::MAX_ARGS;
pub use binary32::Float;
pub use gcode::Gcode;
pub use mnemonic::Mnemonic;
pub use span::Span;
pub use state::{CoordinateMode, Length, LengthUnit, State, Time, Units, Velocity};
pub use word::Word;
