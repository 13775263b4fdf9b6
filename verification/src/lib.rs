//! Rule-based routing of MIDI messages.
//!
//! Raw MIDI bytes are decoded into [`midi::MidiEvent`]s, a line-oriented rule
//! language is parsed into [`routing::Rule`]s, and a [`routing::RoutingTable`]
//! decides for every event which named output ports receive it.

pub mod text;
pub mod midi;
pub mod pattern;
pub mod routing;
pub mod errors;
pub mod field;
pub mod parser;
pub mod error_handler;
