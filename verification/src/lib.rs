//! Control logic of a small polyphonic synthesizer: notes, waveforms, the
//! envelope's stage machine and the computer-keyboard note mapping.

pub mod envelope;
pub mod keyboard;
pub mod note;
pub mod oscillator;
pub mod piano;
pub mod voices;
