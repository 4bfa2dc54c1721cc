//! The speech-recognition host: protocol messages, the engine interface
//! with a deterministic fake engine, and the session state machine.
mod engine;
mod protocol;
mod session;

pub use engine::{AsrEngine, FakeEngine, fake_ids, fake_text, result_view, text_view};
pub use protocol::{Command, Event};
pub use session::{
    Session, after_finish, after_push, audio_answer, base64_standard_decode, decode_pcm16, decoded_events,
    decoded_reply, error, error_reply, ok_ids, pcm_sample, pcm_samples, pcm16_outcome, pcm16_samples, rate_message,
    stop_answer,
};
