use fluxbridge::signaling::{decode_message, encode_message, SignalingMessage};

#[test]
fn encode_offer_exact_line() {
    let m = SignalingMessage::Offer(String::from("v=0 sdp"));
    let line = encode_message(&m);
    assert_eq!(line, "{\"type\":\"Offer\",\"payload\":\"v=0 sdp\"}");
}

#[test]
fn encode_answer_exact_line() {
    let m = SignalingMessage::Answer(String::from("a"));
    let line = encode_message(&m);
    assert_eq!(line, "{\"type\":\"Answer\",\"payload\":\"a\"}");
}

#[test]
fn encode_candidate_exact_line() {
    let m = SignalingMessage::Candidate(String::from("candidate:1 1 udp 2 10.0.0.2 9 typ host"));
    let line = encode_message(&m);
    assert_eq!(
        line,
        "{\"type\":\"Candidate\",\"payload\":\"candidate:1 1 udp 2 10.0.0.2 9 typ host\"}"
    );
}

#[test]
fn escaping_keeps_line_framing() {
    let m = SignalingMessage::Offer(String::from("line1\nline2\t\"quoted\"\\end\r"));
    let line = encode_message(&m);
    assert!(!line.contains('\n'));
    assert!(!line.contains('\r'));
    assert_eq!(
        line,
        "{\"type\":\"Offer\",\"payload\":\"line1\\nline2\\t\\\"quoted\\\"\\\\end\\r\"}"
    );
}

#[test]
fn round_trip_offer() {
    let m = SignalingMessage::Offer(String::from("v=0\r\no=- 46 2 IN IP4 127.0.0.1"));
    let line = encode_message(&m);
    match decode_message(&line) {
        Some(SignalingMessage::Offer(p)) => assert_eq!(p, "v=0\r\no=- 46 2 IN IP4 127.0.0.1"),
        other => panic!("wrong decode: {:?}", other),
    }
}

#[test]
fn round_trip_answer() {
    let m = SignalingMessage::Answer(String::from(""));
    let line = encode_message(&m);
    match decode_message(&line) {
        Some(SignalingMessage::Answer(p)) => assert_eq!(p, ""),
        other => panic!("wrong decode: {:?}", other),
    }
}

#[test]
fn round_trip_candidate() {
    let m = SignalingMessage::Candidate(String::from("c \\ \" \t x"));
    let line = encode_message(&m);
    match decode_message(&line) {
        Some(SignalingMessage::Candidate(p)) => assert_eq!(p, "c \\ \" \t x"),
        other => panic!("wrong decode: {:?}", other),
    }
}

#[test]
fn malformed_lines_are_skipped() {
    assert!(decode_message("").is_none());
    assert!(decode_message("{}").is_none());
    assert!(decode_message("{\"type\":\"Offer\",\"payload\":\"unterminated").is_none());
    assert!(decode_message("{\"type\":\"Offer\",\"payload\":\"x\"} trailing").is_none());
    assert!(decode_message("{\"type\":\"Hello\",\"payload\":\"x\"}").is_none());
    assert!(decode_message("{\"type\":\"Offer\",\"payload\":\"bad\\q\"}").is_none());
}

#[test]
fn decode_plain_wire_line() {
    match decode_message("{\"type\":\"Answer\",\"payload\":\"sdp answer\"}") {
        Some(SignalingMessage::Answer(p)) => assert_eq!(p, "sdp answer"),
        other => panic!("wrong decode: {:?}", other),
    }
}
