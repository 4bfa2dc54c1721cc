//! Verified control logic of a streaming speech-recognition runtime: the
//! checkpoint layout, streaming window arithmetic, caches, greedy RNNT
//! control, speaker fusion, decoding and the host protocol state machine.
pub mod audio;
pub mod backend;
pub mod fusion;
pub mod host;
pub mod kws;
pub mod model;
pub mod opencc;
pub mod seqs;
pub mod text;
pub mod tokenizer;
pub mod weights;
