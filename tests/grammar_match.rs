use isotp_tester::builder::{build_request, external_requests, ExternalOp};
use isotp_tester::{
    is_response_pending, match_response, parse_request_token, parse_request_tokens,
    parse_response_token, parse_response_tokens, Bindings, Error, RequestToken, ResponseToken,
};

fn texts(v: &[&str]) -> Vec<String> {
    v.iter().map(|s| s.to_string()).collect()
}

fn chars(s: &str) -> Vec<char> {
    s.chars().collect()
}

#[test]
fn request_literal_byte() {
    match parse_request_token("0x3E").unwrap() {
        RequestToken::Byte(b) => assert_eq!(b, 0x3E),
        other => panic!("unexpected {:?}", other),
    }
}

#[test]
fn request_token_ignores_spaces() {
    match parse_request_token(" 0x 1 0 ").unwrap() {
        RequestToken::Byte(b) => assert_eq!(b, 0x10),
        other => panic!("unexpected {:?}", other),
    }
}

#[test]
fn request_file_and_signed_reference() {
    match parse_request_token("FILE(certs/ecu.der)").unwrap() {
        RequestToken::File(p) => assert_eq!(p, chars("certs/ecu.der")),
        other => panic!("unexpected {:?}", other),
    }
    match parse_request_token("LEN(RES(seed, keys/priv.pem))").unwrap() {
        RequestToken::Signed(n, k) => {
            assert_eq!(n, chars("seed"));
            assert_eq!(k, chars("keys/priv.pem"));
        }
        other => panic!("unexpected {:?}", other),
    }
    assert!(matches!(parse_request_token("LEN_NEXT").unwrap(), RequestToken::LenNext));
}

#[test]
fn request_unknown_text_is_grammar_error() {
    assert_eq!(parse_request_token("HELLO").unwrap_err(), Error::Grammar);
    assert_eq!(parse_request_token("0x100").unwrap_err(), Error::Grammar);
    assert_eq!(parse_request_token("0xZZ").unwrap_err(), Error::Grammar);
    assert_eq!(parse_request_token("LEN(RES(seed))").unwrap_err(), Error::Grammar);
    assert_eq!(parse_request_tokens(&texts(&["0x01", "bad"])).unwrap_err(), Error::Grammar);
}

#[test]
fn response_alternation_accepts_listed_bytes() {
    match parse_response_token("0x01|0x02|0x03").unwrap() {
        ResponseToken::Accept(v) => assert_eq!(v, vec![1, 2, 3]),
        other => panic!("unexpected {:?}", other),
    }
    let tokens = parse_response_tokens(&texts(&["0x01|0x02|0x03"])).unwrap();
    for b in [1u8, 2, 3] {
        let mut vars = Bindings::new();
        assert_eq!(match_response(&[b], &tokens, &mut vars), Ok(true));
    }
    let mut vars = Bindings::new();
    assert_eq!(match_response(&[4], &tokens, &mut vars), Ok(false));
}

#[test]
fn response_range_and_capture() {
    match parse_response_token("RANGE(0x10,0x13)").unwrap() {
        ResponseToken::Accept(v) => assert_eq!(v, vec![0x10, 0x11, 0x12, 0x13]),
        other => panic!("unexpected {:?}", other),
    }
    match parse_response_token("RANGE(0x13,0x10)").unwrap() {
        ResponseToken::Accept(v) => assert!(v.is_empty()),
        other => panic!("unexpected {:?}", other),
    }
    match parse_response_token("LEN(seed)").unwrap() {
        ResponseToken::Capture(n) => assert_eq!(n, chars("seed")),
        other => panic!("unexpected {:?}", other),
    }
    assert_eq!(parse_response_token("ANY").unwrap_err(), Error::Grammar);
    assert_eq!(parse_response_token("0x01|2").unwrap_err(), Error::Grammar);
    assert_eq!(parse_response_token("0x01|LEN(x)").unwrap_err(), Error::Grammar);
}

#[test]
fn matcher_stops_at_first_mismatch() {
    let tokens = parse_response_tokens(&texts(&["0x01", "0x02"])).unwrap();
    let mut vars = Bindings::new();
    assert_eq!(match_response(&[0x01, 0x03], &tokens, &mut vars), Ok(false));
    let tokens = parse_response_tokens(&texts(&["0x01", "0x02", "0x05"])).unwrap();
    let mut vars = Bindings::new();
    assert_eq!(match_response(&[0x01, 0x03], &tokens, &mut vars), Ok(false));
}

#[test]
fn matcher_is_order_sensitive() {
    let tokens = parse_response_tokens(&texts(&["0x01", "0x02"])).unwrap();
    let mut vars = Bindings::new();
    assert_eq!(match_response(&[0x02, 0x01], &tokens, &mut vars), Ok(false));
    assert_eq!(match_response(&[0x01, 0x02], &tokens, &mut vars), Ok(true));
}

#[test]
fn length_capture_binds_bytes() {
    let tokens = parse_response_tokens(&texts(&["0x67", "0x01", "LEN(x)", "0x99"])).unwrap();
    let mut vars = Bindings::new();
    let dg = [0x67, 0x01, 0x00, 0x03, 0xAA, 0xBB, 0xCC, 0x99];
    assert_eq!(match_response(&dg, &tokens, &mut vars), Ok(true));
    assert_eq!(vars.get("x"), Some(vec![0xAA, 0xBB, 0xCC]));
}

#[test]
fn captured_bytes_are_the_signing_input() {
    let resp = parse_response_tokens(&texts(&["0x67", "LEN(x)"])).unwrap();
    let mut vars = Bindings::new();
    assert_eq!(match_response(&[0x67, 0x00, 0x03, 0xAA, 0xBB, 0xCC], &resp, &mut vars), Ok(true));
    let req = parse_request_tokens(&texts(&["0x27", "0x02", "LEN(RES(x,key.pem))"])).unwrap();
    let ops = external_requests(&req, &vars).unwrap();
    assert_eq!(ops.len(), 1);
    match &ops[0] {
        ExternalOp::Sign(m, k) => {
            assert_eq!(m, &vec![0xAA, 0xBB, 0xCC]);
            assert_eq!(k, &chars("key.pem"));
        }
        other => panic!("unexpected {:?}", other),
    }
}

#[test]
fn short_response_is_protocol_error() {
    let tokens = parse_response_tokens(&texts(&["0x01", "0x02"])).unwrap();
    let mut vars = Bindings::new();
    assert_eq!(match_response(&[0x01], &tokens, &mut vars), Err(Error::Protocol));
    let tokens = parse_response_tokens(&texts(&["LEN(x)"])).unwrap();
    assert_eq!(match_response(&[0x00, 0x05, 1, 2], &tokens, &mut vars), Err(Error::Protocol));
    assert_eq!(match_response(&[0x00], &tokens, &mut vars), Err(Error::Protocol));
}

#[test]
fn pending_response_is_recognised() {
    assert!(is_response_pending(&[0x7F, 0x27, 0x78]));
    assert!(is_response_pending(&[0x7F, 0x31, 0x78, 0x00]));
    assert!(!is_response_pending(&[0x7F, 0x27, 0x35]));
    assert!(!is_response_pending(&[0x67, 0x01, 0x78]));
    assert!(!is_response_pending(&[0x7F, 0x27]));
}

#[test]
fn bindings_replace_earlier_value() {
    let mut vars = Bindings::new();
    assert_eq!(vars.get("a"), None);
    vars.insert("a", vec![1]);
    vars.insert("b", vec![2]);
    vars.insert("a", vec![3]);
    assert_eq!(vars.get("a"), Some(vec![3]));
    assert_eq!(vars.get("b"), Some(vec![2]));
}

#[test]
fn build_literals_only() {
    let req = parse_request_tokens(&texts(&["0x10", "0x03"])).unwrap();
    let vars = Bindings::new();
    assert!(external_requests(&req, &vars).unwrap().is_empty());
    assert_eq!(build_request(&req, &vec![]).unwrap(), vec![0x10, 0x03]);
}

#[test]
fn build_with_file_and_signature() {
    let req = parse_request_tokens(&texts(&[
        "0x29",
        "FILE(cert.der)",
        "LEN_NEXT",
        "LEN(RES(x,key.pem))",
        "0x01",
    ]))
    .unwrap();
    let mut vars = Bindings::new();
    vars.insert("x", vec![9, 9]);
    let ops = external_requests(&req, &vars).unwrap();
    assert_eq!(ops.len(), 2);
    assert!(matches!(&ops[0], ExternalOp::ReadFile(p) if *p == chars("cert.der")));
    let results = vec![vec![0xC0, 0xC1], vec![0x51, 0x52, 0x53]];
    assert_eq!(
        build_request(&req, &results).unwrap(),
        vec![0x29, 0xC0, 0xC1, 0x00, 0x05, 0x00, 0x03, 0x51, 0x52, 0x53, 0x01]
    );
}

#[test]
fn build_signature_without_len_next() {
    let req = parse_request_tokens(&texts(&["LEN(RES(x,k))"])).unwrap();
    assert_eq!(build_request(&req, &vec![vec![7; 300]]).unwrap()[..3], [0x01, 0x2C, 7]);
}

#[test]
fn unbound_variable_is_config_error() {
    let req = parse_request_tokens(&texts(&["LEN(RES(missing,key.pem))"])).unwrap();
    let vars = Bindings::new();
    assert_eq!(external_requests(&req, &vars).unwrap_err(), Error::Config);
}

#[test]
fn results_must_match_outside_work() {
    let req = parse_request_tokens(&texts(&["FILE(a)"])).unwrap();
    assert_eq!(build_request(&req, &vec![]).unwrap_err(), Error::Config);
    assert_eq!(build_request(&req, &vec![vec![1], vec![2]]).unwrap_err(), Error::Config);
}

#[test]
fn oversized_signature_is_framing_error() {
    let req = parse_request_tokens(&texts(&["LEN(RES(x,k))"])).unwrap();
    assert_eq!(build_request(&req, &vec![vec![0; 0x10000]]).unwrap_err(), Error::Framing);
    let req = parse_request_tokens(&texts(&["LEN_NEXT", "LEN(RES(x,k))"])).unwrap();
    assert_eq!(build_request(&req, &vec![vec![0; 0xFFFE]]).unwrap_err(), Error::Framing);
}

#[test]
fn literal_reads_like_from_str_radix() {
    assert!(matches!(parse_request_token("0x+7").unwrap(), RequestToken::Byte(7)));
    assert!(matches!(parse_request_token("0x0041").unwrap(), RequestToken::Byte(0x41)));
    assert!(matches!(parse_request_token("0xff").unwrap(), RequestToken::Byte(0xFF)));
    assert_eq!(parse_request_token("0x").unwrap_err(), Error::Grammar);
    assert_eq!(parse_request_token("0x+").unwrap_err(), Error::Grammar);
}
