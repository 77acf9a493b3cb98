use dmm_monitor::arg::{finalize_args, prompt_needed, AppErr, Args, ArgsErr, OutputFormat};
use dmm_monitor::dispatch::{plan_dispatch, Decoder, Effect, StdoutDataSubscriber};
use dmm_monitor::keepalive::{
    break_needed, break_outcome, BreakOutcome, ReadEvent, Reader, ReaderAction, KEEPALIVE_WINDOW_MS,
};
use dmm_monitor::voice::{
    after_query, after_synthesis, concat3, last_msg, phrase, query_url, start_speak, synthesis_url, BaseUnit, Poll,
    PrefixUnit, PrimaryValue, SpeakFailure, SpeakStep, VoiceboxDataSubscriber, VoiceboxDataSubscriberErr,
};

fn args_with(port: Option<&str>) -> Args {
    Args {
        port: port.map(|p| p.to_owned()),
        output_format: OutputFormat::Jsonl,
        voicebox_url: None,
        voicebox_speaker: 1,
        audio_output_device_name: None,
    }
}

fn msg(s: &str) -> Poll {
    Poll::Message(s.to_owned())
}

#[test]
fn not_specify_port_no_available_ports() {
    let result = finalize_args(args_with(None), &Ok(vec![]), None);
    assert_eq!(result.err().unwrap(), AppErr::NoAvailablePorts);
}

#[test]
fn port_is_specified_by_args() {
    let args = finalize_args(args_with(Some("Port0")), &Ok(vec![]), None).unwrap();
    assert_eq!(args.port, Some("Port0".to_owned()));
}

#[test]
fn port_is_not_specified_but_quit() {
    let result = finalize_args(args_with(None), &Ok(vec!["port0".to_owned()]), None);
    assert_eq!(result.err().unwrap(), AppErr::Aborted);
}

#[test]
fn select_port() {
    let ports = vec!["port0".to_owned(), "port1".to_owned()];
    let args = finalize_args(args_with(None), &Ok(ports), Some("port1".to_owned())).unwrap();
    assert_eq!(args.port, Some("port1".to_owned()));
}

#[test]
fn listing_ports_fails() {
    let result = finalize_args(args_with(None), &Err("denied".to_owned()), None);
    assert_eq!(result.err().unwrap(), AppErr::SerialPortError("denied".to_owned()));
}

#[test]
fn args_error_reports_missing_port() {
    assert_eq!(args_with(None).error(), Some(ArgsErr::PortNotSpecified));
    assert_eq!(args_with(Some("p")).error(), None);
}

#[test]
fn keepalive_due_only_after_window() {
    assert!(!break_needed(1000, 4000, 3000));
    assert!(break_needed(1000, 4001, 3000));
    assert!(!break_needed(5000, 4000, 3000));
}

#[test]
fn nonempty_read_resets_deadline_without_break() {
    let mut r = Reader::new(0, KEEPALIVE_WINDOW_MS);
    match r.on_read(ReadEvent::Data(vec![1, 2, 3]), 10_000) {
        ReaderAction::Forward(c) => assert_eq!(c, vec![1, 2, 3]),
        _ => panic!("expected the chunk to be forwarded"),
    }
    assert_eq!(r.last_received_ms, 10_000);
}

#[test]
fn idle_reads_issue_one_keepalive() {
    let mut r = Reader::new(0, KEEPALIVE_WINDOW_MS);
    assert!(matches!(r.on_read(ReadEvent::Data(vec![]), 1000), ReaderAction::Wait));
    assert!(matches!(r.on_read(ReadEvent::TimedOut, 3000), ReaderAction::Wait));
    assert!(matches!(r.on_read(ReadEvent::Data(vec![]), 3001), ReaderAction::SendBreak));
    assert!(matches!(r.break_sent(BreakOutcome::Done, 4001), ReaderAction::Wait));
    assert_eq!(r.last_received_ms, 4001);
    assert!(matches!(r.on_read(ReadEvent::Data(vec![]), 5001), ReaderAction::Wait));
    assert!(matches!(r.on_read(ReadEvent::TimedOut, 7001), ReaderAction::Wait));
}

#[test]
fn clear_failure_still_resets_deadline() {
    let mut r = Reader::new(0, KEEPALIVE_WINDOW_MS);
    assert!(matches!(r.on_read(ReadEvent::TimedOut, 4000), ReaderAction::SendBreak));
    let outcome = break_outcome(true, false);
    assert_eq!(outcome, BreakOutcome::ClearFailed);
    assert!(matches!(r.break_sent(outcome, 5000), ReaderAction::Wait));
    assert_eq!(r.last_received_ms, 5000);
}

#[test]
fn failed_assert_and_failed_read_are_fatal() {
    let mut r = Reader::new(0, KEEPALIVE_WINDOW_MS);
    assert_eq!(break_outcome(false, true), BreakOutcome::Fatal);
    assert_eq!(break_outcome(true, true), BreakOutcome::Done);
    assert!(matches!(r.break_sent(BreakOutcome::Fatal, 5000), ReaderAction::Fatal));
    assert_eq!(r.last_received_ms, 0);
    assert!(matches!(r.on_read(ReadEvent::Failed, 10), ReaderAction::Fatal));
}

#[test]
fn mailbox_speaks_only_latest_of_three() {
    let r = last_msg(Some("A".to_owned()), vec![msg("B"), msg("C"), Poll::Empty]);
    assert_eq!(r, Ok("C".to_owned()));
}

#[test]
fn mailbox_skips_to_fifth_of_five() {
    let r = last_msg(Some("2".to_owned()), vec![msg("3"), msg("4"), msg("5"), Poll::Empty]);
    assert_eq!(r, Ok("5".to_owned()));
}

#[test]
fn mailbox_single_message_and_closed() {
    assert_eq!(last_msg(Some("A".to_owned()), vec![Poll::Empty]), Ok("A".to_owned()));
    assert_eq!(last_msg(None, vec![]), Err(VoiceboxDataSubscriberErr::Disconnected));
    assert_eq!(
        last_msg(Some("A".to_owned()), vec![msg("B"), Poll::Disconnected]),
        Err(VoiceboxDataSubscriberErr::Disconnected)
    );
}

#[test]
fn phrase_names_prefix_and_unit() {
    let v = PrimaryValue { digits: "12.3".to_owned(), prefix_unit: PrefixUnit::Kilo, base_unit: BaseUnit::Volt };
    assert_eq!(phrase(&v), "12.3キロボルト");
    let v = PrimaryValue { digits: "0.5".to_owned(), prefix_unit: PrefixUnit::Millis, base_unit: BaseUnit::Ampere };
    assert_eq!(phrase(&v), "0.5ミリアンペア");
}

#[test]
fn synthesis_addresses() {
    assert_eq!(
        query_url("http://localhost:50021", 1, "hello"),
        Some("http://localhost:50021/audio_query?speaker=1&text=hello".to_owned())
    );
    assert_eq!(
        synthesis_url("http://localhost:50021", 12),
        Some("http://localhost:50021/synthesis?speaker=12".to_owned())
    );
    assert_eq!(query_url("not an address", 1, "x"), None);
}

#[test]
fn speak_steps() {
    match start_speak("http://h:1", 2, "hi") {
        SpeakStep::Query { url } => assert_eq!(url, "http://h:1/audio_query?speaker=2&text=hi"),
        _ => panic!("expected a query step"),
    }
    assert!(matches!(start_speak("bad", 2, "hi"), SpeakStep::Dropped(SpeakFailure::QueryUrl)));
    match after_query("http://h:1", 2, Some("{}".to_owned())) {
        SpeakStep::Synthesize { url, body } => {
            assert_eq!(url, "http://h:1/synthesis?speaker=2");
            assert_eq!(body, "{}");
        }
        _ => panic!("expected a synthesis step"),
    }
    match after_synthesis(Some(vec![1, 2])) {
        SpeakStep::Play { wav } => assert_eq!(wav, vec![1, 2]),
        _ => panic!("expected playback"),
    }
    assert!(matches!(after_synthesis(None), SpeakStep::Dropped(SpeakFailure::SynthesisRequest)));
}

#[test]
fn query_failure_drops_the_utterance() {
    assert!(matches!(after_query("http://h:1", 2, None), SpeakStep::Dropped(SpeakFailure::QueryRequest)));
}

#[test]
fn voicebox_subscriber_enqueues_phrase() {
    let (tx, rx) = std::sync::mpsc::channel();
    let mut s = VoiceboxDataSubscriber::new("http://localhost:50021/".to_owned(), 3, tx);
    assert_eq!(s.url, "http://localhost:50021");
    assert_eq!(s.speaker, 3);
    let v = PrimaryValue { digits: "1.234".to_owned(), prefix_unit: PrefixUnit::Kilo, base_unit: BaseUnit::Hearts };
    assert_eq!(s.on_data(&Some(v)), Ok(()));
    assert_eq!(s.on_data(&None), Ok(()));
    assert_eq!(rx.try_recv().unwrap(), "1.234キロヘルツ");
    assert!(rx.try_recv().is_err());
    let kept = VoiceboxDataSubscriber::new("http://h".to_owned(), 1, std::sync::mpsc::channel().0);
    assert_eq!(kept.url, "http://h");
}

#[test]
fn decoder_yields_kilo_record() {
    let mut d = Decoder::new();
    let results = d.feed(b"012342<0:\r\n");
    assert_eq!(results.len(), 1);
    let v = results[0].as_ref().unwrap().value.clone().unwrap();
    assert_eq!(v.digits, "1.234");
    assert_eq!(v.prefix_unit, PrefixUnit::Kilo);
    assert_eq!(v.base_unit, BaseUnit::Hearts);
}

#[test]
fn decoder_joins_split_chunks() {
    let mut d = Decoder::new();
    assert_eq!(d.feed(b"01").len(), 0);
    let results = d.feed(b"234;<0:\r\n00000;<0:\r\n");
    assert_eq!(results.len(), 2);
    assert_eq!(results[0].as_ref().unwrap().value.clone().unwrap().digits, "1.234");
    assert_eq!(results[1].as_ref().unwrap().value.clone().unwrap().prefix_unit, PrefixUnit::NoPrefix);
}

#[test]
fn decode_error_is_logged_not_dispatched() {
    let mut d = Decoder::new();
    let results = d.feed(b"9xxxx;<0:\r\n");
    assert_eq!(results.len(), 1);
    assert!(results[0].is_err());
    assert_eq!(plan_dispatch(&results, 2), vec![Effect::LogError { result: 0 }]);
}

#[test]
fn fan_out_in_registration_order() {
    let results: Vec<Result<u8, ()>> = vec![Ok(1), Err(()), Ok(2)];
    assert_eq!(
        plan_dispatch(&results, 2),
        vec![
            Effect::Deliver { subscriber: 0, result: 0 },
            Effect::Deliver { subscriber: 1, result: 0 },
            Effect::LogError { result: 1 },
            Effect::Deliver { subscriber: 0, result: 2 },
            Effect::Deliver { subscriber: 1, result: 2 },
        ]
    );
    assert_eq!(plan_dispatch(&results, 0), vec![Effect::LogError { result: 1 }]);
    assert_eq!(plan_dispatch(&results, 2), plan_dispatch(&results, 2));
}

#[test]
fn stdout_subscriber_keeps_format() {
    assert_eq!(StdoutDataSubscriber::new(OutputFormat::Jsonl).format, OutputFormat::Jsonl);
}

#[test]
fn prompt_only_when_ports_listed_and_none_given() {
    let ports: Result<Vec<String>, String> = Ok(vec!["p0".to_owned()]);
    assert!(prompt_needed(&args_with(None), &ports));
    assert!(!prompt_needed(&args_with(Some("p0")), &ports));
    assert!(!prompt_needed(&args_with(None), &Ok(vec![])));
    assert!(!prompt_needed(&args_with(None), &Err("denied".to_owned())));
}

#[test]
fn concat_joins_in_order() {
    assert_eq!(concat3("a", "", "bc"), "abc");
    assert_eq!(concat3("", "", ""), "");
}

#[test]
fn mailbox_gets_one_phrase_per_reading_with_value() {
    let (tx, rx) = std::sync::mpsc::channel();
    let mut s = VoiceboxDataSubscriber::new("http://h".to_owned(), 1, tx);
    let volt = PrimaryValue { digits: "1.0".to_owned(), prefix_unit: PrefixUnit::NoPrefix, base_unit: BaseUnit::Volt };
    let ohm = PrimaryValue { digits: "2.2".to_owned(), prefix_unit: PrefixUnit::Mega, base_unit: BaseUnit::Ohm };
    for v in [Some(volt), None, Some(ohm.clone()), Some(ohm)] {
        assert_eq!(s.on_data(&v), Ok(()));
    }
    let got: Vec<String> = rx.try_iter().collect();
    assert_eq!(got, vec!["1.0ボルト", "2.2メガオーム", "2.2メガオーム"]);
}

#[test]
fn reader_forwards_chunks_in_order_and_never_empty() {
    let mut r = Reader::new(0, KEEPALIVE_WINDOW_MS);
    let events = vec![
        ReadEvent::Data(vec![1]),
        ReadEvent::Data(vec![]),
        ReadEvent::TimedOut,
        ReadEvent::Data(vec![2, 3]),
        ReadEvent::Data(vec![4]),
    ];
    let mut pushed: Vec<Vec<u8>> = vec![];
    for (i, e) in events.into_iter().enumerate() {
        if let ReaderAction::Forward(c) = r.on_read(e, 100 * i as u64) {
            pushed.push(c);
        }
    }
    assert_eq!(pushed, vec![vec![1], vec![2, 3], vec![4]]);
}
