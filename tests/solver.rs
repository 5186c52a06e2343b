use base64::Engine;
use deepseek_api::{
    proof_token, read_answer_bits, read_status, solve_prefix, Challenge, SolveAction, SolveEvent,
    SolveResponse, SolveSession, SolveState,
};

fn challenge() -> Challenge {
    Challenge {
        salt: "c0ffee".to_string(),
        expire_at: 1_700_000_123_456,
        challenge: "abc\"def".to_string(),
        difficulty_bits: 144000.0f64.to_bits(),
        algorithm: "DeepSeekHashV1".to_string(),
        signature: "sig".to_string(),
        target_path: "/api/v0/chat/completion".to_string(),
    }
}

#[test]
fn prefix_joins_salt_and_expiry() {
    assert_eq!(solve_prefix(&challenge()), "c0ffee_1700000123456_");
    let mut c = challenge();
    c.expire_at = -5;
    assert_eq!(solve_prefix(&c), "c0ffee_-5_");
}

#[test]
fn status_word_is_little_endian() {
    let mem = [1u8, 0, 0, 0, 0, 0, 0, 0];
    assert_eq!(read_status(&mem, 0), 1);
    assert_eq!(read_status(&mem, 1), 0);
    assert_eq!(read_status(&[9, 1, 0, 0], 0), 265);
    assert_eq!(read_status(&[0xff, 0xff, 0xff, 0xff], 0), -1);
}

#[test]
fn answer_bits_are_little_endian() {
    let answer = 98765.0f64;
    let mut mem = vec![0u8; 24];
    mem[8..16].copy_from_slice(&answer.to_le_bytes());
    let bits = read_answer_bits(&mem, 8);
    assert_eq!(f64::from_bits(bits), answer);
}

#[test]
fn token_is_base64_of_compact_json() {
    let token = proof_token(&challenge(), 42);
    let raw = base64::engine::general_purpose::STANDARD.decode(token.as_bytes()).unwrap();
    assert_eq!(
        String::from_utf8(raw).unwrap(),
        "{\"algorithm\":\"DeepSeekHashV1\",\"challenge\":\"abc\\\"def\",\"salt\":\"c0ffee\",\"answer\":42,\"signature\":\"sig\",\"target_path\":\"/api/v0/chat/completion\"}"
    );
}

#[test]
fn response_carries_challenge_fields() {
    let r = SolveResponse::new(&challenge(), -7);
    assert_eq!(r.answer, -7);
    assert_eq!(r.salt, "c0ffee");
    assert_eq!(r.to_token(), proof_token(&challenge(), -7));
}

#[test]
fn session_runs_the_module_protocol() {
    let (mut s, a) = SolveSession::start(challenge());
    assert!(matches!(a, SolveAction::AdjustStack(-16)));
    let a = s.step(SolveEvent::StackMoved(1000));
    assert!(matches!(a, SolveAction::Write(ref t) if t == "abc\"def"));
    let a = s.step(SolveEvent::Written(2000, 7));
    assert!(matches!(a, SolveAction::Write(ref t) if t == "c0ffee_1700000123456_"));
    let a = s.step(SolveEvent::Written(3000, 21));
    assert!(matches!(a, SolveAction::Solve(1000, 2000, 7, 3000, 21)));
    let a = s.step(SolveEvent::Solved);
    assert!(matches!(a, SolveAction::ReadResult(1000)));
    let a = s.step(SolveEvent::ResultRead(1, 42));
    assert!(matches!(a, SolveAction::AdjustStack(16)));
    assert_eq!(s.state(), SolveState::Restoring(Some(42)));
    let a = s.step(SolveEvent::StackMoved(1016));
    match a {
        SolveAction::Finish(Some(t)) => assert_eq!(t, proof_token(&challenge(), 42)),
        other => panic!("unexpected {other:?}"),
    }
    assert_eq!(s.state(), SolveState::Done);
}

#[test]
fn session_releases_reservation_on_failure() {
    let (mut s, _) = SolveSession::start(challenge());
    s.step(SolveEvent::StackMoved(1000));
    s.step(SolveEvent::Written(2000, 7));
    let a = s.step(SolveEvent::Failed);
    assert!(matches!(a, SolveAction::AdjustStack(16)));
    let a = s.step(SolveEvent::StackMoved(1016));
    assert!(matches!(a, SolveAction::Finish(None)));
}

#[test]
fn session_status_zero_gives_no_token() {
    let (mut s, _) = SolveSession::start(challenge());
    s.step(SolveEvent::StackMoved(1000));
    s.step(SolveEvent::Written(2000, 7));
    s.step(SolveEvent::Written(3000, 21));
    s.step(SolveEvent::Solved);
    let a = s.step(SolveEvent::ResultRead(0, 42));
    assert!(matches!(a, SolveAction::AdjustStack(16)));
    assert!(matches!(s.step(SolveEvent::StackMoved(1016)), SolveAction::Finish(None)));
}

#[test]
fn session_failed_reservation_finishes_at_once() {
    let (mut s, _) = SolveSession::start(challenge());
    assert!(matches!(s.step(SolveEvent::Failed), SolveAction::Finish(None)));
    assert_eq!(s.state(), SolveState::Done);
}
