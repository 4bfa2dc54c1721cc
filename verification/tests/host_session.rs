use base64::Engine as _;
use nemotron_mlx::host::{
    AsrEngine, Command, Event, FakeEngine, Session, after_finish, after_push, decode_pcm16, pcm16_samples,
};

fn b64_pcm(samples: usize) -> String {
    base64::engine::general_purpose::STANDARD.encode(vec![0u8; samples * 2])
}

fn start() -> Command {
    Command::Start { lang: "auto".into(), sample_rate: 16000 }
}

#[test]
fn happy_path_start_audio_stop() {
    let mut session = Session::new(FakeEngine::new());
    assert!(session.handle(start()).is_empty());
    let events = session.handle(Command::Audio { pcm16_b64: b64_pcm(1600) });
    assert!(matches!(&events[..], [Event::Partial { text }] if text == "字0"));
    let events = session.handle(Command::Stop);
    assert!(matches!(&events[..], [Event::Final { text }] if text == "字0"));
}

#[test]
fn partial_only_when_new_tokens() {
    let mut session = Session::new(FakeEngine::new());
    session.handle(start());
    let events = session.handle(Command::Audio { pcm16_b64: b64_pcm(100) });
    assert!(events.is_empty());
}

#[test]
fn state_errors_do_not_kill_session() {
    let mut session = Session::new(FakeEngine::new());
    assert!(matches!(&session.handle(Command::Stop)[..], [Event::Error { .. }]));
    assert!(matches!(
        &session.handle(Command::Audio { pcm16_b64: b64_pcm(1600) })[..],
        [Event::Error { .. }]
    ));
    session.handle(start());
    assert!(matches!(&session.handle(start())[..], [Event::Error { .. }]));
    let events = session.handle(Command::Audio { pcm16_b64: b64_pcm(1600) });
    assert!(matches!(&events[..], [Event::Partial { .. }]));
}

#[test]
fn rejects_bad_audio_payload() {
    let mut session = Session::new(FakeEngine::new());
    session.handle(start());
    assert!(matches!(
        &session.handle(Command::Audio { pcm16_b64: "!!!".into() })[..],
        [Event::Error { .. }]
    ));
    let odd = base64::engine::general_purpose::STANDARD.encode([0u8; 3]);
    assert!(matches!(
        &session.handle(Command::Audio { pcm16_b64: odd })[..],
        [Event::Error { message }] if message == "pcm16_b64 位元組數必須為偶數"
    ));
}

#[test]
fn rejects_wrong_sample_rate() {
    let mut session = Session::new(FakeEngine::new());
    let events = session.handle(Command::Start { lang: "auto".into(), sample_rate: 44100 });
    assert!(matches!(&events[..], [Event::Error { message }] if message == "sample_rate 僅支援 16000,收到 44100"));
}

#[test]
fn partials_carry_all_text_so_far() {
    let mut session = Session::new(FakeEngine::new());
    session.handle(start());
    session.handle(Command::Audio { pcm16_b64: b64_pcm(1600) });
    let events = session.handle(Command::Audio { pcm16_b64: b64_pcm(3300) });
    assert!(matches!(&events[..], [Event::Partial { text }] if text == "字0字1字2"));
    let events = session.handle(Command::Stop);
    assert!(matches!(&events[..], [Event::Final { text }] if text == "字0字1字2"));
    assert!(matches!(&session.handle(Command::Stop)[..], [Event::Error { message }] if message == "尚未 start"));
    assert_eq!(session.backend(), "fake");
}

#[test]
fn pcm16_decodes_little_endian_signed_samples() {
    let payload = base64::engine::general_purpose::STANDARD.encode([0x01, 0x00, 0xff, 0xff, 0x00, 0x80, 0xff, 0x7f]);
    assert_eq!(decode_pcm16(&payload).unwrap(), vec![1, -1, -32768, 32767]);
    assert!(decode_pcm16("!!!").unwrap_err().starts_with("pcm16_b64 非法 base64:"));
}

#[test]
fn fake_engine_counts_full_blocks() {
    let mut engine = FakeEngine::new();
    assert_eq!(engine.push(&[0; 1599]).unwrap(), Vec::<u32>::new());
    assert_eq!(engine.push(&[0; 3201]).unwrap(), vec![0, 1, 2]);
    assert_eq!(engine.finish().unwrap(), Vec::<u32>::new());
    assert_eq!(engine.push(&[0; 1599]).unwrap(), Vec::<u32>::new());
    assert_eq!(engine.decode(&[3, 10]).unwrap(), "字3字10");
}

#[test]
fn pcm_bytes_become_signed_little_endian_samples() {
    assert_eq!(pcm16_samples(&[0x34, 0x12, 0x00, 0x80, 0xff, 0xff]).unwrap(), vec![0x1234, i16::MIN, -1]);
    assert_eq!(pcm16_samples(&[1, 2, 3]).unwrap_err(), "pcm16_b64 位元組數必須為偶數");
    assert!(pcm16_samples(&[]).unwrap().is_empty());
}

#[test]
fn pushed_ids_are_appended_and_ask_for_a_decode() {
    let mut ids = vec![1, 2];
    assert_eq!(after_push(&mut ids, Ok(vec![3, 4])), None);
    assert_eq!(ids, vec![1, 2, 3, 4]);
    assert_eq!(after_push(&mut ids, Ok(vec![])), Some(vec![]));
    assert_eq!(ids, vec![1, 2, 3, 4]);
    assert_eq!(
        after_push(&mut ids, Err("engine down".to_string())),
        Some(vec![Event::Error { message: "engine down".to_string() }])
    );
    assert_eq!(ids, vec![1, 2, 3, 4]);
}

#[test]
fn finished_ids_are_appended_before_the_final_decode() {
    let mut ids = vec![7];
    assert_eq!(after_finish(&mut ids, Ok(vec![8])), None);
    assert_eq!(ids, vec![7, 8]);
    assert_eq!(
        after_finish(&mut ids, Err("flush failed".to_string())),
        Some(vec![Event::Error { message: "flush failed".to_string() }])
    );
    assert_eq!(ids, vec![7, 8]);
}

#[test]
fn one_block_of_silence_answers_the_first_id_then_the_final_text() {
    let mut session = Session::new(FakeEngine::new());
    assert!(session.handle(start()).is_empty());
    assert_eq!(session.handle(Command::Audio { pcm16_b64: b64_pcm(1600) }), vec![Event::Partial { text: "字0".into() }]);
    assert_eq!(session.handle(Command::Stop), vec![Event::Final { text: "字0".into() }]);
}
