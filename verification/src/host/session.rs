//! The session state machine: protocol commands to engine calls to
//! protocol events. No I/O happens here.
use base64::Engine as _;
use vstd::prelude::*;

use super::engine::{AsrEngine, result_view, text_view};
use super::protocol::{Command, Event};
use crate::text::{decimal, push_decimal, push_str};

verus! {

/// What the standard base64 alphabet decodes `text` to, or the text of the
/// decoding error.
pub uninterp spec fn base64_standard_decode(text: Seq<char>) -> Result<Seq<u8>, Seq<char>>;

/// Calls `base64::engine::general_purpose::STANDARD.decode` on the UTF-8
/// bytes of `text` and renders a decoding error with its `Display` text;
/// claims only that the outcome is [`base64_standard_decode`] of the text.
#[verifier::external_body]
fn base64_decode(text: &str) -> (r: Result<Vec<u8>, String>)
    ensures
        match r {
            Ok(bytes) => base64_standard_decode(text@) == Ok::<Seq<u8>, Seq<char>>(bytes@),
            Err(message) => base64_standard_decode(text@) == Err::<Seq<u8>, Seq<char>>(message@),
        },
{
    match base64::engine::general_purpose::STANDARD.decode(text) {
        Ok(bytes) => Ok(bytes),
        Err(error) => Err(format!("{error}")),
    }
}

/// The sample encoded by little-endian bytes `low`, `high`.
pub open spec fn pcm_sample(low: u8, high: u8) -> int {
    if high < 128 {
        high * 256 + low
    } else {
        high * 256 + low - 65536
    }
}

/// The samples of little-endian 16-bit PCM bytes, one per byte pair.
pub open spec fn pcm_samples(bytes: Seq<u8>) -> Seq<i16> {
    Seq::new(bytes.len() / 2, |i: int| pcm_sample(bytes[2 * i], bytes[2 * i + 1]) as i16)
}

/// Samples of a base64 PCM16 payload, or the error message for it.
pub open spec fn pcm16_outcome(text: Seq<char>) -> Result<Seq<i16>, Seq<char>> {
    match base64_standard_decode(text) {
        Err(message) => Err("pcm16_b64 非法 base64:"@ + message),
        Ok(bytes) => if bytes.len() % 2 != 0 {
            Err("pcm16_b64 位元組數必須為偶數"@)
        } else {
            Ok(pcm_samples(bytes))
        },
    }
}

/// Samples of little-endian 16-bit PCM bytes; an odd byte count is
/// malformed.
pub fn pcm16_samples(bytes: &[u8]) -> (r: Result<Vec<i16>, String>)
    ensures
        bytes@.len() % 2 != 0 ==> (r matches Err(e) && e@ == "pcm16_b64 位元組數必須為偶數"@),
        bytes@.len() % 2 == 0 ==> (r matches Ok(v) && v@ == pcm_samples(bytes@)),
{
    if bytes.len() % 2 != 0 {
        return Err("pcm16_b64 位元組數必須為偶數".to_owned());
    }
    let mut samples: Vec<i16> = Vec::new();
    let byte_count = bytes.len();
    let pairs = byte_count / 2;
    let mut i: usize = 0;
    while i < pairs
        invariant
            byte_count == bytes@.len(),
            pairs == bytes@.len() / 2,
            bytes@.len() % 2 == 0,
            i <= pairs,
            samples@ == pcm_samples(bytes@).take(i as int),
        decreases pairs - i,
    {
        let low = bytes[2 * i];
        let high = bytes[2 * i + 1];
        let value: i32 = (high as i32) * 256 + (low as i32);
        let signed: i32 = if value >= 32768 { value - 65536 } else { value };
        samples.push(signed as i16);
        i += 1;
        assert(samples@ =~= pcm_samples(bytes@).take(i as int));
    }
    assert(samples@ =~= pcm_samples(bytes@));
    Ok(samples)
}

/// Decodes base64 little-endian PCM16; an odd byte count is malformed.
pub fn decode_pcm16(b64: &str) -> (r: Result<Vec<i16>, String>)
    ensures
        match pcm16_outcome(b64@) {
            Ok(samples) => r matches Ok(v) && v@ == samples,
            Err(message) => r matches Err(e) && e@ == message,
        },
{
    let bytes = match base64_decode(b64) {
        Ok(bytes) => bytes,
        Err(message) => {
            let mut text = "pcm16_b64 非法 base64:".to_owned();
            push_str(&mut text, message.as_str());
            return Err(text);
        },
    };
    pcm16_samples(bytes.as_slice())
}

/// One error event.
pub fn error(message: String) -> (r: Vec<Event>)
    ensures
        r@ == seq![Event::Error { message }],
{
    let r = vec![Event::Error { message }];
    assert(r@ =~= seq![Event::Error { message }]);
    r
}

/// The message refusing a sample rate other than 16 kHz.
pub fn rate_message(sample_rate: u32) -> (r: String)
    ensures
        r@ == "sample_rate 僅支援 16000,收到 "@ + decimal(sample_rate as nat),
{
    let mut text = "sample_rate 僅支援 16000,收到 ".to_owned();
    push_decimal(&mut text, sample_rate as u64);
    text
}

/// The event for a decoding outcome: the text as a partial or final event,
/// or the engine's error.
pub fn decoded_events(decoded: Result<String, String>, is_final: bool) -> (r: Vec<Event>)
    ensures
        r@.len() == 1,
        match decoded {
            Ok(text) => r@[0] == if is_final { Event::Final { text } } else { Event::Partial { text } },
            Err(message) => r@[0] == Event::Error { message },
        },
{
    match decoded {
        Ok(text) => {
            let event = if is_final { Event::Final { text } } else { Event::Partial { text } };
            let r = vec![event];
            r
        },
        Err(message) => error(message),
    }
}

/// `reply` answers an engine error with that message.
pub open spec fn error_reply(reply: Seq<Event>, message: Seq<char>) -> bool {
    &&& reply.len() == 1
    &&& reply[0] matches Event::Error { message: m } && m@ == message
}

/// `reply` answers a decoding outcome: its text as a partial or final
/// event, or its error.
pub open spec fn decoded_reply(reply: Seq<Event>, decoded: Result<Seq<char>, Seq<char>>, is_final: bool) -> bool {
    match decoded {
        Ok(text) => {
            &&& reply.len() == 1
            &&& is_final ==> (reply[0] matches Event::Final { text: t } && t@ == text)
            &&& !is_final ==> (reply[0] matches Event::Partial { text: t } && t@ == text)
        },
        Err(message) => error_reply(reply, message),
    }
}

/// A session holding `before` answers audio whose samples the engine took
/// with `pushed`, and then, when it decoded, with `decoded`, by `reply`
/// and then holds `after`: an engine error is answered as such; no new ids
/// answer nothing; new ids are appended and the decoded text of all ids is
/// the partial answer.
pub open spec fn audio_answer(
    before: Seq<u32>,
    pushed: Result<Seq<u32>, Seq<char>>,
    decoded: Result<Seq<char>, Seq<char>>,
    reply: Seq<Event>,
    after: Seq<u32>,
) -> bool {
    match pushed {
        Err(message) => {
            &&& error_reply(reply, message)
            &&& after == before
        },
        Ok(fresh) => if fresh.len() == 0 {
            &&& reply.len() == 0
            &&& after == before
        } else {
            &&& after == before + fresh
            &&& decoded_reply(reply, decoded, false)
        },
    }
}

/// A session that flushed the engine with outcome `finished` and then, on
/// success, decoded with `decoded` answers `reply`: an engine error as
/// such, else the decoded text as the final answer.
pub open spec fn stop_answer(
    finished: Result<Seq<u32>, Seq<char>>,
    decoded: Result<Seq<char>, Seq<char>>,
    reply: Seq<Event>,
) -> bool {
    match finished {
        Err(message) => error_reply(reply, message),
        Ok(_) => decoded_reply(reply, decoded, true),
    }
}

/// Takes what the engine's `push` returned for a session holding `ids`:
/// an error answers that error, no new ids answer nothing, and new ids are
/// appended to `ids` with `None` asking for them to be decoded.
pub fn after_push(ids: &mut Vec<u32>, pushed: Result<Vec<u32>, String>) -> (r: Option<Vec<Event>>)
    ensures
        match pushed {
            Err(message) => final(ids)@ == old(ids)@ && (r matches Some(reply) && error_reply(reply@, message@)),
            Ok(fresh) => if fresh@.len() == 0 {
                final(ids)@ == old(ids)@ && (r matches Some(reply) && reply@.len() == 0)
            } else {
                final(ids)@ == old(ids)@ + fresh@ && r is None
            },
        },
{
    match pushed {
        Err(message) => Some(error(message)),
        Ok(fresh) => {
            if fresh.len() == 0 {
                return Some(Vec::new());
            }
            crate::seqs::extend_copied(ids, fresh.as_slice());
            None
        },
    }
}

/// Takes what the engine's `finish` returned for a session holding `ids`:
/// an error answers that error, else the last ids are appended to `ids`
/// with `None` asking for the whole to be decoded.
pub fn after_finish(ids: &mut Vec<u32>, finished: Result<Vec<u32>, String>) -> (r: Option<Vec<Event>>)
    ensures
        match finished {
            Err(message) => final(ids)@ == old(ids)@ && (r matches Some(reply) && error_reply(reply@, message@)),
            Ok(tail) => final(ids)@ == old(ids)@ + tail@ && r is None,
        },
{
    match finished {
        Err(message) => Some(error(message)),
        Ok(tail) => {
            crate::seqs::extend_copied(ids, tail.as_slice());
            None
        },
    }
}

/// The ids of a successful engine answer, none for an error.
pub open spec fn ok_ids(answer: Result<Seq<u32>, Seq<char>>) -> Seq<u32> {
    match answer {
        Ok(ids) => ids,
        Err(_) => Seq::empty(),
    }
}

/// A protocol session over one engine.
pub struct Session<E> {
    engine: E,
    accumulated: Option<Vec<u32>>,
}

impl<E: AsrEngine> Session<E> {
    /// Token ids of the running session, `None` when none runs.
    pub closed spec fn accumulated_view(&self) -> Option<Seq<u32>> {
        match self.accumulated {
            Some(ids) => Some(ids@),
            None => None,
        }
    }

    /// The engine the session drives.
    pub closed spec fn engine_view(&self) -> E {
        self.engine
    }

    /// A session-less host over `engine`.
    pub fn new(engine: E) -> (s: Self)
        ensures
            s.accumulated_view() is None,
            s.engine_view() == engine,
    {
        Session { engine, accumulated: None }
    }

    /// Name of the engine's backend: what the engine's own `backend` answers.
    pub fn backend(&self) -> (r: &'static str)
        ensures
            call_ensures(E::backend, (&self.engine_view(),), r),
    {
        self.engine.backend()
    }

    /// Handles one command. Refusals (a sample rate other than 16 kHz, a
    /// start during a session, audio or stop outside one, a malformed
    /// payload) answer one error event and change nothing; audio that
    /// yields new tokens answers the decoded text so far; stop ends the
    /// session and answers the final text.
    pub fn handle(&mut self, cmd: Command) -> (r: Vec<Event>)
        ensures
            match cmd {
                Command::Start { sample_rate, .. } => if sample_rate != 16000 {
                    &&& r@.len() == 1
                    &&& r@[0] matches Event::Error { message }
                        && message@ == "sample_rate 僅支援 16000,收到 "@ + decimal(sample_rate as nat)
                    &&& final(self).accumulated_view() == old(self).accumulated_view()
                    &&& final(self).engine_view() == old(self).engine_view()
                } else if old(self).accumulated_view() is Some {
                    &&& r@.len() == 1
                    &&& r@[0] matches Event::Error { message } && message@ == "會話進行中,請先 stop"@
                    &&& final(self).accumulated_view() == old(self).accumulated_view()
                    &&& final(self).engine_view() == old(self).engine_view()
                } else {
                    &&& r@.len() == 0
                    &&& final(self).accumulated_view() == Some(Seq::<u32>::empty())
                    &&& final(self).engine_view() == old(self).engine_view()
                },
                Command::Audio { pcm16_b64 } => if old(self).accumulated_view() is None {
                    &&& r@.len() == 1
                    &&& r@[0] matches Event::Error { message } && message@ == "尚未 start"@
                    &&& final(self).accumulated_view() is None
                    &&& final(self).engine_view() == old(self).engine_view()
                } else {
                    match pcm16_outcome(pcm16_b64@) {
                        Err(m) => {
                            &&& r@.len() == 1
                            &&& r@[0] matches Event::Error { message } && message@ == m
                            &&& final(self).accumulated_view() == old(self).accumulated_view()
                            &&& final(self).engine_view() == old(self).engine_view()
                        },
                        Ok(samples) => {
                            let engine = old(self).engine_view();
                            &&& final(self).accumulated_view() is Some
                            &&& final(self).engine_view().fed() == engine.fed() + samples
                            &&& audio_answer(
                                old(self).accumulated_view()->0,
                                engine.ids_for(samples),
                                final(self).engine_view().text_of(final(self).accumulated_view()->0),
                                r@,
                                final(self).accumulated_view()->0,
                            )
                        },
                    }
                },
                Command::Stop => if old(self).accumulated_view() is None {
                    &&& r@.len() == 1
                    &&& r@[0] matches Event::Error { message } && message@ == "尚未 start"@
                    &&& final(self).accumulated_view() is None
                    &&& final(self).engine_view() == old(self).engine_view()
                } else {
                    let engine = old(self).engine_view();
                    &&& final(self).accumulated_view() is None
                    &&& final(self).engine_view().fed() == engine.fed()
                    &&& stop_answer(
                        engine.final_ids(),
                        final(self).engine_view().text_of(
                            old(self).accumulated_view()->0 + ok_ids(engine.final_ids()),
                        ),
                        r@,
                    )
                },
            },
    {
        match cmd {
            Command::Start { lang: _, sample_rate } => {
                if sample_rate != 16000 {
                    return error(rate_message(sample_rate));
                }
                if self.accumulated.is_some() {
                    return error("會話進行中,請先 stop".to_owned());
                }
                self.accumulated = Some(Vec::new());
                Vec::new()
            },
            Command::Audio { pcm16_b64 } => {
                let mut ids = match self.accumulated.take() {
                    Some(ids) => ids,
                    None => {
                        return error("尚未 start".to_owned());
                    },
                };
                let samples = match decode_pcm16(pcm16_b64.as_str()) {
                    Ok(samples) => samples,
                    Err(message) => {
                        self.accumulated = Some(ids);
                        return error(message);
                    },
                };
                let ghost before = ids@;
                let pushed = self.engine.push(samples.as_slice());
                let ghost pushed_view = result_view(&pushed);
                match after_push(&mut ids, pushed) {
                    Some(reply) => {
                        self.accumulated = Some(ids);
                        proof {
                            assert(before == old(self).accumulated_view()->0);
                            assert(self.accumulated_view()->0 == ids@);
                            assert(audio_answer(before, pushed_view, Ok(Seq::empty()), reply@, ids@));
                        }
                        reply
                    },
                    None => {
                        let decoded = self.engine.decode(ids.as_slice());
                        let ghost decoded_view = text_view(&decoded);
                        self.accumulated = Some(ids);
                        let reply = decoded_events(decoded, false);
                        proof {
                            assert(before == old(self).accumulated_view()->0);
                            assert(self.accumulated_view()->0 == ids@);
                            assert(decoded_reply(reply@, decoded_view, false));
                            assert(audio_answer(before, pushed_view, decoded_view, reply@, ids@));
                        }
                        reply
                    },
                }
            },
            Command::Stop => {
                let mut ids = match self.accumulated.take() {
                    Some(ids) => ids,
                    None => {
                        return error("尚未 start".to_owned());
                    },
                };
                let finished = self.engine.finish();
                let ghost finished_view = result_view(&finished);
                match after_finish(&mut ids, finished) {
                    Some(reply) => {
                        proof {
                            assert(stop_answer(finished_view, Ok(Seq::empty()), reply@));
                        }
                        reply
                    },
                    None => {
                        let decoded = self.engine.decode(ids.as_slice());
                        let ghost decoded_view = text_view(&decoded);
                        let reply = decoded_events(decoded, true);
                        proof {
                            assert(stop_answer(finished_view, decoded_view, reply@));
                        }
                        reply
                    },
                }
            },
        }
    }
}

} // verus!
