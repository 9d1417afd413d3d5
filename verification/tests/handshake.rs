use std::borrow::Cow;
use std::sync::Arc;

use orion::kdf::SecretKey;
use tako::error::DsError;
use tako::handshake::{
    do_authentication, Handshake, HandshakeAction, HandshakeEvent, HandshakePhase, Received,
    SendOutcome,
};
use tako::messages::{
    AuthenticationMode, AuthenticationRequest, AuthenticationResponse, Challenge,
};

fn start(role: &'static str, peer: &'static str) -> (Handshake, AuthenticationRequest) {
    do_authentication(5, role, peer, None).unwrap()
}

fn failure(action: HandshakeAction) -> String {
    match action {
        HandshakeAction::Fail(DsError::GenericError(text)) => text,
        _ => panic!("expected a failure"),
    }
}

fn send_request(handshake: Handshake) -> Handshake {
    match handshake.advance(HandshakeEvent::Send(SendOutcome::Sent)) {
        HandshakeAction::ReceiveRequest(next) => next,
        _ => panic!("expected to receive a request"),
    }
}

fn answer(
    handshake: Handshake,
    request: AuthenticationRequest,
) -> (Handshake, AuthenticationResponse) {
    match handshake.advance(HandshakeEvent::Request(Received::Message(request))) {
        HandshakeAction::SendResponse(next, response) => (next, response),
        _ => panic!("expected to send a response"),
    }
}

fn send_response(handshake: Handshake) -> Handshake {
    match handshake.advance(HandshakeEvent::Send(SendOutcome::Sent)) {
        HandshakeAction::ReceiveResponse(next) => next,
        _ => panic!("expected to receive a response"),
    }
}

fn awaiting_response() -> Handshake {
    let (h, _) = start("a", "b");
    let (_, q) = start("b", "a");
    let (h, _) = answer(send_request(h), q);
    send_response(h)
}

#[test]
fn handshake_goes_through_its_phases() {
    let (h, q) = start("a", "b");
    assert_eq!(q.protocol, 5);
    assert_eq!(q.role, "a");
    assert_eq!(h.phase(), HandshakePhase::SendingRequest);
    let h = send_request(h);
    assert_eq!(h.phase(), HandshakePhase::AwaitingRequest);
    let (_, q) = start("b", "a");
    let (h, r) = answer(h, q);
    assert_eq!(h.phase(), HandshakePhase::SendingResponse);
    assert!(matches!(r, AuthenticationResponse::NoAuth));
    let h = send_response(h);
    assert_eq!(h.phase(), HandshakePhase::AwaitingResponse);
    let end = h.advance(HandshakeEvent::Response(Received::Message(
        AuthenticationResponse::NoAuth,
    )));
    assert!(matches!(end, HandshakeAction::Accept(None, None)));
}

#[test]
fn matching_handshakes_end_in_acceptance() {
    let key = Some(Arc::new(SecretKey::generate(32).unwrap()));
    let (h1, q1) = do_authentication(5, "a", "b", key.clone()).unwrap();
    let (h2, q2) = do_authentication(5, "b", "a", key).unwrap();
    let (h1, r1) = answer(send_request(h1), q2);
    let (h2, r2) = answer(send_request(h2), q1);
    let end1 = send_response(h1).advance(HandshakeEvent::Response(Received::Message(r2)));
    let end2 = send_response(h2).advance(HandshakeEvent::Response(Received::Message(r1)));
    let HandshakeAction::Accept(Some(mut s1), Some(mut o1)) = end1 else {
        panic!("expected acceptance");
    };
    let HandshakeAction::Accept(Some(mut s2), Some(mut o2)) = end2 else {
        panic!("expected acceptance");
    };
    let tag = orion::aead::streaming::StreamTag::Message;
    let chunk = s1.seal_chunk(b"one", &tag).unwrap();
    assert_eq!(o2.open_chunk(&chunk).unwrap().0, b"one");
    let chunk = s2.seal_chunk(b"two", &tag).unwrap();
    assert_eq!(o1.open_chunk(&chunk).unwrap().0, b"two");
}

#[test]
fn request_that_is_not_sent_fails() {
    let (h, _) = start("a", "b");
    assert_eq!(
        failure(h.advance(HandshakeEvent::Send(SendOutcome::TimedOut))),
        "Sending authentication timeout"
    );
    let (h, _) = start("a", "b");
    assert_eq!(
        failure(h.advance(HandshakeEvent::Send(SendOutcome::Failed))),
        "Sending authentication failed"
    );
}

#[test]
fn request_that_does_not_arrive_fails() {
    let (h, _) = start("a", "b");
    assert_eq!(
        failure(send_request(h).advance(HandshakeEvent::Request(Received::TimedOut))),
        "Authentication message did not arrived"
    );
    let (h, _) = start("a", "b");
    assert_eq!(
        failure(send_request(h).advance(HandshakeEvent::Request(Received::Closed))),
        "The remote side closed connection without authentication message"
    );
}

#[test]
fn request_that_cannot_be_answered_fails() {
    let key = Some(Arc::new(SecretKey::generate(8).unwrap()));
    let (h, _) = do_authentication(5, "a", "b", key).unwrap();
    let q = AuthenticationRequest {
        protocol: 5,
        role: Cow::Borrowed("b"),
        mode: AuthenticationMode::Encryption(Challenge {
            challenge: vec![0; 16],
        }),
    };
    assert_eq!(
        failure(send_request(h).advance(HandshakeEvent::Request(Received::Message(q)))),
        "Creating sealer failed"
    );
}

#[test]
fn response_that_is_not_sent_fails() {
    let (_, q) = start("b", "a");
    let (h, _) = start("a", "b");
    let (h, _) = answer(send_request(h), q);
    assert_eq!(
        failure(h.advance(HandshakeEvent::Send(SendOutcome::TimedOut))),
        "Sending authentication timeouted"
    );
    let (_, q) = start("b", "a");
    let (h, _) = start("a", "b");
    let (h, _) = answer(send_request(h), q);
    assert_eq!(
        failure(h.advance(HandshakeEvent::Send(SendOutcome::Failed))),
        "Sending authentication failed"
    );
}

#[test]
fn response_that_does_not_arrive_fails() {
    assert_eq!(
        failure(awaiting_response().advance(HandshakeEvent::Response(Received::TimedOut))),
        "Authentication message did not arrived"
    );
    assert_eq!(
        failure(awaiting_response().advance(HandshakeEvent::Response(Received::Closed))),
        "The remote side closed connection without authentication message"
    );
}

#[test]
fn refusal_is_sent_and_then_fails() {
    let (h, _) = start("a", "b");
    let (_, q) = start("c", "a");
    let (h, r) = answer(send_request(h), q);
    assert!(matches!(r, AuthenticationResponse::Error(_)));
    let end = send_response(h).advance(HandshakeEvent::Response(Received::Message(
        AuthenticationResponse::NoAuth,
    )));
    match end {
        HandshakeAction::Fail(DsError::AuthenticationRejected(text)) => {
            assert_eq!(text, "Authentication failed: Expected peer role b, got c")
        }
        _ => panic!("expected a rejection"),
    }
}

fn is_rejected(action: HandshakeAction) -> bool {
    matches!(action, HandshakeAction::Fail(DsError::AuthenticationRejected(_)))
}

#[test]
fn differing_handshakes_are_both_rejected() {
    let key = || Some(Arc::new(SecretKey::generate(32).unwrap()));
    let sides = [
        (do_authentication(5, "a", "b", None), do_authentication(6, "b", "a", None)),
        (do_authentication(5, "a", "b", None), do_authentication(5, "b", "c", None)),
        (do_authentication(5, "a", "x", None), do_authentication(5, "b", "a", None)),
        (do_authentication(5, "a", "b", key()), do_authentication(5, "b", "a", None)),
        (do_authentication(5, "a", "b", None), do_authentication(5, "b", "a", key())),
        (do_authentication(5, "a", "b", key()), do_authentication(5, "b", "c", key())),
    ];
    for (side1, side2) in sides {
        let (h1, q1) = side1.unwrap();
        let (h2, q2) = side2.unwrap();
        let (h1, r1) = answer(send_request(h1), q2);
        let (h2, r2) = answer(send_request(h2), q1);
        let end1 = send_response(h1).advance(HandshakeEvent::Response(Received::Message(r2)));
        let end2 = send_response(h2).advance(HandshakeEvent::Response(Received::Message(r1)));
        assert!(is_rejected(end1));
        assert!(is_rejected(end2));
    }
}

#[test]
fn handshakes_with_different_keys_fail_to_verify() {
    let key = || Some(Arc::new(SecretKey::generate(32).unwrap()));
    let (h1, q1) = do_authentication(5, "a", "b", key()).unwrap();
    let (h2, q2) = do_authentication(5, "b", "a", key()).unwrap();
    let (h1, r1) = answer(send_request(h1), q2);
    let (h2, r2) = answer(send_request(h2), q1);
    let end1 = send_response(h1).advance(HandshakeEvent::Response(Received::Message(r2)));
    let end2 = send_response(h2).advance(HandshakeEvent::Response(Received::Message(r1)));
    for end in [end1, end2] {
        match end {
            HandshakeAction::Fail(DsError::AuthenticationRejected(text)) => {
                assert_eq!(text, "Cannot verify challenge")
            }
            _ => panic!("expected a rejection"),
        }
    }
}

#[test]
fn handshake_rejects_the_answer_to_another_challenge() {
    let key = Some(Arc::new(SecretKey::generate(32).unwrap()));
    let (h1, _) = do_authentication(5, "a", "b", key.clone()).unwrap();
    let (_, other) = do_authentication(5, "a", "b", key.clone()).unwrap();
    let (h2, q2) = do_authentication(5, "b", "a", key).unwrap();
    let (h1, _) = answer(send_request(h1), q2);
    let (_, r2) = answer(send_request(h2), other);
    let end = send_response(h1).advance(HandshakeEvent::Response(Received::Message(r2)));
    match end {
        HandshakeAction::Fail(DsError::AuthenticationRejected(text)) => {
            assert_eq!(text, "Received challenge does not match.")
        }
        _ => panic!("expected a rejection"),
    }
}
