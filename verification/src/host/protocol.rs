//! Messages of version 1 of the host protocol: commands read from the
//! client and events written back, one JSON object per line.
use vstd::prelude::*;

verus! {

/// A client command.
#[derive(Debug, Clone, PartialEq, Eq)]
pub enum Command {
    /// Begins a session for `lang` audio at `sample_rate` Hz.
    Start { lang: String, sample_rate: u32 },
    /// Base64 of little-endian 16-bit mono PCM.
    Audio { pcm16_b64: String },
    /// Ends the session and asks for the final text.
    Stop,
}

/// A host event.
#[derive(Debug, Clone, PartialEq, Eq)]
pub enum Event {
    /// The host is up, running on `backend`.
    Ready { backend: &'static str },
    /// Text of the session so far.
    Partial { text: String },
    /// Text of the whole session.
    Final { text: String },
    /// A command failed; the host keeps running.
    Error { message: String },
}

} // verus!
