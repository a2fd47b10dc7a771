use isotp_tester::command::{isotp_addresses, message_bytes, raw_id};
use isotp_tester::{
    parse_id, plan_suite, reassemble, Action, Error, Event, ExtendedId, ExternalOp, Id, JsonNode,
    SequenceRunner, SequenceState, StandardId, Step, SuiteItem,
};

fn texts(v: &[&str]) -> Vec<String> {
    v.iter().map(|s| s.to_string()).collect()
}

fn step(name: &str, request: &[&str], response: &[&str]) -> Step {
    Step { name: name.to_string(), request: texts(request), response: texts(response) }
}

/// Two steps: the first captures a seed, the second signs it.
fn auth_steps(first_response: &[&str]) -> Vec<Step> {
    vec![
        step("seed", &["0x27", "0x01"], first_response),
        step("key", &["0x27", "0x02", "LEN(RES(seed,key.pem))"], &["0x67", "0x02"]),
    ]
}

fn sent_payload(a: &Action) -> Vec<u8> {
    match a {
        Action::Send(frames) => reassemble(frames).unwrap(),
        other => panic!("expected frames, got {:?}", other),
    }
}

#[test]
fn two_step_sequence_passes() {
    let mut r = SequenceRunner::new(auth_steps(&["0x67", "0x01", "LEN(seed)"]), 0x7E0);
    assert_eq!(r.state(), SequenceState::Idle);
    let a = r.start();
    assert_eq!(sent_payload(&a), vec![0x27, 0x01]);
    assert_eq!(r.state(), SequenceState::Running(0));
    assert!(matches!(r.on_event(Event::Sent), Action::Receive));
    let a = r.on_event(Event::Received(vec![0x67, 0x01, 0x00, 0x02, 0xDE, 0xAD]));
    match &a {
        Action::Fetch(ops) => {
            assert_eq!(ops.len(), 1);
            match &ops[0] {
                ExternalOp::Sign(m, _) => assert_eq!(m, &vec![0xDE, 0xAD]),
                other => panic!("unexpected {:?}", other),
            }
        }
        other => panic!("expected fetch, got {:?}", other),
    }
    assert_eq!(r.state(), SequenceState::Running(1));
    let a = r.on_event(Event::Fetched(vec![vec![0x5A, 0x5B, 0x5C]]));
    assert_eq!(sent_payload(&a), vec![0x27, 0x02, 0x00, 0x03, 0x5A, 0x5B, 0x5C]);
    assert!(matches!(r.on_event(Event::Sent), Action::Receive));
    let a = r.on_event(Event::Received(vec![0x67, 0x02]));
    assert!(matches!(a, Action::Finished(SequenceState::Passed)));
    assert_eq!(r.state(), SequenceState::Passed);
    assert_eq!(r.failure(), None);
}

#[test]
fn first_step_mismatch_fails_at_step_zero() {
    let mut r = SequenceRunner::new(auth_steps(&["0x67", "0x01", "LEN(seed)"]), 0x7E0);
    r.start();
    r.on_event(Event::Sent);
    let a = r.on_event(Event::Received(vec![0x7F, 0x27, 0x35]));
    assert!(matches!(a, Action::Finished(SequenceState::Failed(0))));
    assert_eq!(r.state(), SequenceState::Failed(0));
    assert_eq!(r.bindings().get("seed"), None);
    let a = r.on_event(Event::Sent);
    assert!(matches!(a, Action::Finished(SequenceState::Failed(0))));
}

#[test]
fn pending_responses_are_skipped() {
    let mut r = SequenceRunner::new(vec![step("s", &["0x31", "0x01"], &["0x71"])], 0x7E0);
    r.start();
    r.on_event(Event::Sent);
    for _ in 0..3 {
        assert!(matches!(r.on_event(Event::Received(vec![0x7F, 0x31, 0x78])), Action::Receive));
        assert_eq!(r.state(), SequenceState::Running(0));
    }
    let a = r.on_event(Event::Received(vec![0x71]));
    assert!(matches!(a, Action::Finished(SequenceState::Passed)));
}

#[test]
fn pending_datagram_never_reaches_matcher() {
    let mut r = SequenceRunner::new(vec![step("s", &["0x31"], &["0x7F", "0x31", "0x78"])], 1);
    r.start();
    r.on_event(Event::Sent);
    assert!(matches!(r.on_event(Event::Received(vec![0x7F, 0x31, 0x78])), Action::Receive));
    assert_eq!(r.state(), SequenceState::Running(0));
}

#[test]
fn malformed_response_fails_with_protocol_error() {
    let mut r = SequenceRunner::new(vec![step("s", &["0x22"], &["0x62", "0xF1", "0x90"])], 1);
    r.start();
    r.on_event(Event::Sent);
    let a = r.on_event(Event::Received(vec![0x62]));
    assert!(matches!(a, Action::Finished(SequenceState::Failed(0))));
    assert_eq!(r.failure(), Some(Error::Protocol));
}

#[test]
fn grammar_error_fails_step() {
    let mut r = SequenceRunner::new(vec![step("s", &["0x22", "NOPE"], &[])], 1);
    let a = r.start();
    assert!(matches!(a, Action::Finished(SequenceState::Failed(0))));
    assert_eq!(r.failure(), Some(Error::Grammar));
}

#[test]
fn unbound_variable_fails_step() {
    let mut r = SequenceRunner::new(vec![step("s", &["LEN(RES(none,k))"], &[])], 1);
    r.start();
    assert_eq!(r.state(), SequenceState::Failed(0));
    assert_eq!(r.failure(), Some(Error::Config));
}

#[test]
fn transport_failure_fails_step() {
    let mut r = SequenceRunner::new(vec![step("s", &["0x10"], &["0x50"])], 1);
    r.start();
    let a = r.on_event(Event::Failed(Error::Transport));
    assert!(matches!(a, Action::Finished(SequenceState::Failed(0))));
    assert_eq!(r.failure(), Some(Error::Transport));
}

#[test]
fn empty_sequence_passes() {
    let mut r = SequenceRunner::new(vec![], 1);
    assert!(matches!(r.start(), Action::Finished(SequenceState::Passed)));
    assert_eq!(r.step_count(), 0);
}

#[test]
fn long_request_is_segmented() {
    let words: Vec<String> = (0..20).map(|i| format!("0x{:02X}", i)).collect();
    let refs: Vec<&str> = words.iter().map(|s| s.as_str()).collect();
    let mut r = SequenceRunner::new(vec![step("long", &refs, &["0x50"])], 0x7E0);
    match r.start() {
        Action::Send(frames) => {
            assert_eq!(frames.len(), 3);
            assert!(frames.iter().all(|f| f.id() == 0x7E0));
            assert_eq!(frames[0].wire_data()[..2], [0x10, 20]);
        }
        other => panic!("unexpected {:?}", other),
    }
    assert_eq!(r.step_name(0), "long");
}

fn s(v: &str) -> JsonNode {
    JsonNode::Str(v.to_string())
}

fn obj(entries: Vec<(&str, JsonNode)>) -> JsonNode {
    JsonNode::Object(entries.into_iter().map(|(k, v)| (k.to_string(), v)).collect())
}

#[test]
fn suite_walk_yields_sequences_in_order() {
    let seq1 = JsonNode::Array(vec![obj(vec![
        ("Name", s("session")),
        ("Step", JsonNode::Array(vec![s("0x10"), s("0x03"), s("Response"), s("0x50"), s("0x03")])),
    ])]);
    let seq2 = JsonNode::Array(vec![obj(vec![
        ("Name", s("tester present")),
        ("Step", JsonNode::Array(vec![s("0x3E"), s("Response"), s("0x7E")])),
    ])]);
    let doc = obj(vec![
        ("TestSuiteName", s("demo")),
        (
            "Tests",
            JsonNode::Array(vec![
                obj(vec![("ID", s("Standard,0x7E0,0x7E8")), ("Sequence", seq1)]),
                obj(vec![("ID", s("Extended,0x18DA10F1,0x18DAF110")), ("Sequence", seq2)]),
            ]),
        ),
        ("Comment", JsonNode::Number("1".to_string())),
        ("Author", s("someone")),
    ]);
    let items = plan_suite(&doc);
    assert_eq!(items.len(), 4);
    assert!(matches!(&items[0], SuiteItem::Announce(n) if n == "demo"));
    match &items[1] {
        SuiteItem::Run(p) => {
            assert_eq!(p.addressing.tx_id, 0x7E8);
            assert_eq!(p.addressing.src, Id::Standard(StandardId::new(0x7E0).unwrap()));
            assert_eq!(p.steps.len(), 1);
            assert_eq!(p.steps[0].name, "session");
            assert_eq!(p.steps[0].request, texts(&["0x10", "0x03"]));
            assert_eq!(p.steps[0].response, texts(&["0x50", "0x03"]));
        }
        other => panic!("unexpected {:?}", other),
    }
    match &items[2] {
        SuiteItem::Run(p) => {
            assert_eq!(p.addressing.dest, Id::Extended(ExtendedId::new(0x18DA_F110).unwrap()));
            assert_eq!(p.steps[0].name, "tester present");
        }
        other => panic!("unexpected {:?}", other),
    }
    assert!(matches!(&items[3], SuiteItem::Unknown(k) if k == "Author"));
}

#[test]
fn suite_with_bad_id_skips_only_its_test() {
    let good_seq = JsonNode::Array(vec![obj(vec![("S", JsonNode::Array(vec![s("0x3E")]))])]);
    let bad_seq = JsonNode::Array(vec![obj(vec![("S", JsonNode::Array(vec![s("0x10")]))])]);
    let doc = obj(vec![(
        "Tests",
        JsonNode::Array(vec![
            obj(vec![("ID", s("Standard,0x800,0x7E8")), ("Sequence", bad_seq)]),
            obj(vec![("ID", s("Standard,0x7E0,0x7E8")), ("Sequence", good_seq)]),
        ]),
    )]);
    let items = plan_suite(&doc);
    assert_eq!(items.len(), 2);
    assert!(matches!(&items[0], SuiteItem::InvalidId(t) if t == "Standard,0x800,0x7E8"));
    match &items[1] {
        SuiteItem::Run(p) => {
            assert_eq!(p.addressing.tx_id, 0x7E8);
            assert_eq!(p.steps[0].request, texts(&["0x3E"]));
        }
        other => panic!("unexpected {:?}", other),
    }
}

#[test]
fn id_applies_wherever_it_stands_in_its_object() {
    let seq = JsonNode::Array(vec![obj(vec![("S", JsonNode::Array(vec![s("0x3E")]))])]);
    let doc = obj(vec![(
        "Tests",
        JsonNode::Array(vec![obj(vec![("Sequence", seq), ("ID", s("Extended,0x18DA10F1,0x18DAF110"))])]),
    )]);
    let items = plan_suite(&doc);
    assert_eq!(items.len(), 1);
    match &items[0] {
        SuiteItem::Run(p) => {
            assert_eq!(p.addressing.tx_id, 0x18DA_F110);
            assert_eq!(p.addressing.src, Id::Extended(ExtendedId::new(0x18DA_10F1).unwrap()));
        }
        other => panic!("unexpected {:?}", other),
    }
}

#[test]
fn parse_id_forms() {
    let a = parse_id("Standard,0x7E0,0x7E8").unwrap();
    assert_eq!(a.src.as_raw(), 0x7E0);
    assert_eq!(a.tx_id, 0x7E8);
    let b = parse_id("Extended,0x18DA10F1,0x18DAF110").unwrap();
    assert!(matches!(b.src, Id::Extended(_)));
    assert_eq!(b.dest.as_raw(), 0x18DA_F110);
    assert_eq!(parse_id("Other,0x1,0x2").unwrap_err(), Error::Config);
    assert_eq!(parse_id("Standard,7E0,0x7E8").unwrap_err(), Error::Config);
    assert_eq!(parse_id("Standard,0x7E0").unwrap_err(), Error::Config);
    assert_eq!(parse_id("Extended,0x20000000,0x1").unwrap_err(), Error::Config);
}

#[test]
fn step_text_splits_at_first_marker_only() {
    let seq = JsonNode::Array(vec![
        obj(vec![("S", JsonNode::Array(vec![s("0x01"), JsonNode::Null, s("Response"), s("0x41"), s("Response"), s("0x42")]))]),
        JsonNode::Bool(true),
        obj(vec![("Name", s("b")), ("S", JsonNode::Array(vec![s("0x02")]))]),
    ]);
    let doc = obj(vec![("Sequence", seq)]);
    let items = plan_suite(&doc);
    match &items[0] {
        SuiteItem::Run(p) => {
            assert_eq!(p.addressing.tx_id, 0);
            assert_eq!(p.steps.len(), 2);
            assert_eq!(p.steps[0].name, "");
            assert_eq!(p.steps[0].request, texts(&["0x01"]));
            assert_eq!(p.steps[0].response, texts(&["0x41", "Response", "0x42"]));
            assert_eq!(p.steps[1].name, "b");
            assert!(p.steps[1].response.is_empty());
        }
        other => panic!("unexpected {:?}", other),
    }
}

#[test]
fn send_command_arguments() {
    let (src, dest) = isotp_addresses("1", "18DA10F1", "18DAF110").unwrap();
    assert_eq!(src.as_raw(), 0x18DA_10F1);
    assert!(matches!(dest, Id::Extended(_)));
    let (src, _) = isotp_addresses("false", "7E0", "7E8").unwrap();
    assert_eq!(src, Id::Standard(StandardId::new(0x7E0).unwrap()));
    assert_eq!(isotp_addresses("maybe", "1", "2").unwrap_err(), Error::Config);
    assert_eq!(isotp_addresses("0", "800", "1").unwrap_err(), Error::Config);
    assert_eq!(raw_id("7DF").unwrap(), 0x7DF);
    assert_eq!(raw_id("xyz").unwrap_err(), Error::Config);
    assert_eq!(message_bytes(&texts(&["02", "10", "ff"])).unwrap(), vec![0x02, 0x10, 0xFF]);
    assert_eq!(message_bytes(&texts(&["100"])).unwrap_err(), Error::Config);
}

#[test]
fn second_step_mismatch_fails_at_step_one() {
    let mut r = SequenceRunner::new(auth_steps(&["0x67", "LEN(seed)"]), 0x7E0);
    r.start();
    r.on_event(Event::Sent);
    let a = r.on_event(Event::Received(vec![0x67, 0x00, 0x02, 0xAB, 0xCD]));
    match &a {
        Action::Fetch(ops) => {
            assert!(matches!(&ops[0], ExternalOp::Sign(m, _) if *m == vec![0xAB, 0xCD]))
        }
        other => panic!("expected fetch, got {:?}", other),
    }
    r.on_event(Event::Fetched(vec![vec![1, 2]]));
    r.on_event(Event::Sent);
    let a = r.on_event(Event::Received(vec![0x7F, 0x27, 0x35]));
    assert!(matches!(a, Action::Finished(SequenceState::Failed(1))));
    assert_eq!(r.state(), SequenceState::Failed(1));
}
