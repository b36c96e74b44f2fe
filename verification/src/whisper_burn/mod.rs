//! Speech to text with a Whisper model: the search over token sequences and what surrounds it.
pub mod beam;
pub mod transcribe;
