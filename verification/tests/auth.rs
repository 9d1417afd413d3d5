use std::borrow::Cow;
use std::sync::Arc;

use orion::aead::streaming::{Nonce, StreamOpener, StreamSealer, StreamTag};
use orion::kdf::SecretKey;
use tako::auth::{challenge_answer, Authenticator, CHALLENGE_LENGTH};
use tako::error::DsError;
use tako::messages::{
    AuthenticationError, AuthenticationMode, AuthenticationRequest, AuthenticationResponse,
    Challenge, EncryptionResponse,
};
use tako::stream::ChunkTag;

fn new_key() -> Option<Arc<SecretKey>> {
    Some(Arc::new(SecretKey::generate(32).unwrap()))
}

fn request(protocol: u32, role: &'static str, mode: AuthenticationMode) -> AuthenticationRequest {
    AuthenticationRequest {
        protocol,
        role: Cow::Borrowed(role),
        mode,
    }
}

fn challenge(length: usize) -> AuthenticationMode {
    AuthenticationMode::Encryption(Challenge {
        challenge: vec![7; length],
    })
}

fn refusal_text(response: &AuthenticationResponse) -> &str {
    match response {
        AuthenticationResponse::Error(error) => error.message.as_str(),
        _ => panic!("expected a refusal"),
    }
}

fn rejection<T>(result: Result<T, DsError>) -> String {
    match result {
        Err(DsError::AuthenticationRejected(text)) => text,
        Err(DsError::GenericError(text)) => panic!("unexpected error: {text}"),
        Ok(_) => panic!("expected a rejection"),
    }
}

fn challenge_of(request: &AuthenticationRequest) -> Vec<u8> {
    match &request.mode {
        AuthenticationMode::Encryption(msg) => msg.challenge.clone(),
        AuthenticationMode::NoAuth => panic!("expected a challenge"),
    }
}

#[test]
fn test_no_auth() {
    let mut a1 = Authenticator::new(0, "a", "b", None);
    let mut a2 = Authenticator::new(0, "b", "a", None);

    let q1 = a1.make_auth_request().unwrap();
    let q2 = a2.make_auth_request().unwrap();

    let r1 = a1.make_auth_response(q2).unwrap();
    let r2 = a2.make_auth_response(q1).unwrap();

    assert!(matches!(&r1, AuthenticationResponse::NoAuth));
    assert!(matches!(&r2, AuthenticationResponse::NoAuth));

    let (s1, o1) = a1.finish_authentication(r2).unwrap();
    let (s2, o2) = a2.finish_authentication(r1).unwrap();

    assert!(s1.is_none());
    assert!(s2.is_none());
    assert!(o1.is_none());
    assert!(o2.is_none());
}

#[test]
fn test_auth_ok() {
    let secret_key = Some(Arc::new(SecretKey::generate(32).unwrap()));
    let mut a1 = Authenticator::new(0, "a", "b", secret_key.clone());
    let mut a2 = Authenticator::new(0, "b", "a", secret_key);

    let q1 = a1.make_auth_request().unwrap();
    let q2 = a2.make_auth_request().unwrap();

    let r1 = a1.make_auth_response(q2).unwrap();
    let r2 = a2.make_auth_response(q1).unwrap();

    assert!(matches!(&r1, AuthenticationResponse::Encryption(_)));
    assert!(matches!(&r2, AuthenticationResponse::Encryption(_)));

    let (s1, o1) = a1.finish_authentication(r2).unwrap();
    let (s2, o2) = a2.finish_authentication(r1).unwrap();

    assert!(s1.is_some());
    assert!(s2.is_some());
    assert!(o1.is_some());
    assert!(o2.is_some());
}

#[test]
fn test_auth_different_keys() {
    let secret_key1 = Some(Arc::new(SecretKey::generate(32).unwrap()));
    let secret_key2 = Some(Arc::new(SecretKey::generate(32).unwrap()));
    let mut a1 = Authenticator::new(0, "a", "b", secret_key1);
    let mut a2 = Authenticator::new(0, "b", "a", secret_key2);

    let q1 = a1.make_auth_request().unwrap();
    let q2 = a2.make_auth_request().unwrap();

    let r1 = a1.make_auth_response(q2).unwrap();
    let r2 = a2.make_auth_response(q1).unwrap();

    assert!(matches!(&r1, AuthenticationResponse::Encryption(_)));
    assert!(matches!(&r2, AuthenticationResponse::Encryption(_)));

    assert!(a1.finish_authentication(r2).is_err());
    assert!(a2.finish_authentication(r1).is_err());
}

#[test]
fn test_auth_and_no_auth() {
    let secret_key = Some(Arc::new(SecretKey::generate(32).unwrap()));
    let mut a1 = Authenticator::new(0, "a", "b", secret_key);
    let mut a2 = Authenticator::new(0, "b", "a", None);

    let q1 = a1.make_auth_request().unwrap();
    let q2 = a2.make_auth_request().unwrap();

    let r1 = a1.make_auth_response(q2).unwrap();
    let r2 = a2.make_auth_response(q1).unwrap();

    assert!(matches!(&r1, AuthenticationResponse::Error(_)));
    assert!(matches!(&r2, AuthenticationResponse::Error(_)));

    assert!(a1.finish_authentication(r2).is_err());
    assert!(a2.finish_authentication(r1).is_err());
}

#[test]
fn test_mirror_attack() {
    let secret_key = Some(Arc::new(SecretKey::generate(32).unwrap()));
    let mut a1 = Authenticator::new(0, "a", "b", secret_key);

    let mut q1 = a1.make_auth_request().unwrap();
    q1.role = "b".into();
    let r1 = a1.make_auth_response(q1).unwrap();
    assert!(a1.finish_authentication(r1).is_err());
}

#[test]
fn test_invalid_version() {
    let mut a1 = Authenticator::new(0, "a", "b", None);
    let mut a2 = Authenticator::new(1, "b", "a", None);

    let q1 = a1.make_auth_request().unwrap();
    let q2 = a2.make_auth_request().unwrap();

    let r1 = a1.make_auth_response(q2).unwrap();
    let r2 = a2.make_auth_response(q1).unwrap();

    assert!(matches!(&r1, AuthenticationResponse::Error(_)));
    assert!(matches!(&r2, AuthenticationResponse::Error(_)));

    assert!(a1.finish_authentication(r2).is_err());
    assert!(a2.finish_authentication(r1).is_err());
}

#[test]
fn test_invalid_roles() {
    let mut a1 = Authenticator::new(0, "a", "b", None);
    let mut a2 = Authenticator::new(0, "b", "c", None);

    let q1 = a1.make_auth_request().unwrap();
    let q2 = a2.make_auth_request().unwrap();

    let r1 = a1.make_auth_response(q2).unwrap();
    let r2 = a2.make_auth_response(q1).unwrap();

    assert!(matches!(&r1, AuthenticationResponse::NoAuth));
    assert!(matches!(&r2, AuthenticationResponse::Error(_)));

    assert!(a1.finish_authentication(r2).is_err());
    assert!(a2.finish_authentication(r1).is_err());
}

#[test]
fn request_tells_protocol_and_role() {
    let mut a = Authenticator::new(12, "worker", "server", None);
    let q = a.make_auth_request().unwrap();
    assert_eq!(q.protocol, 12);
    assert_eq!(q.role, "worker");
    assert!(matches!(q.mode, AuthenticationMode::NoAuth));
}

#[test]
fn request_carries_a_new_random_challenge() {
    let mut a = Authenticator::new(0, "a", "b", new_key());
    let first = challenge_of(&a.make_auth_request().unwrap());
    let second = challenge_of(&a.make_auth_request().unwrap());
    assert_eq!(first.len(), CHALLENGE_LENGTH);
    assert_eq!(second.len(), CHALLENGE_LENGTH);
    assert_ne!(first, vec![0; CHALLENGE_LENGTH]);
    assert_ne!(first, second);
}

#[test]
fn request_with_a_given_challenge() {
    let mut keyed = Authenticator::new(0, "a", "b", new_key());
    let q = keyed.request_with_challenge(vec![1, 2, 3]);
    assert_eq!(challenge_of(&q), vec![1, 2, 3]);

    let mut keyless = Authenticator::new(0, "a", "b", None);
    let q = keyless.request_with_challenge(vec![1, 2, 3]);
    assert!(matches!(q.mode, AuthenticationMode::NoAuth));
}

#[test]
fn wrong_protocol_is_refused_with_both_versions() {
    let mut a = Authenticator::new(3, "a", "b", None);
    let q = request(4294967295, "x", AuthenticationMode::NoAuth);
    let r = a.make_auth_response(q).unwrap();
    assert_eq!(
        refusal_text(&r),
        "Invalid version of protocol, expected 3, got 4294967295"
    );
}

#[test]
fn wrong_role_is_refused_with_both_roles() {
    let mut a = Authenticator::new(3, "server", "worker", None);
    let q = request(3, "client", AuthenticationMode::NoAuth);
    let r = a.make_auth_response(q).unwrap();
    assert_eq!(refusal_text(&r), "Expected peer role worker, got client");
    let q = request(3, "worke", AuthenticationMode::NoAuth);
    let r = a.make_auth_response(q).unwrap();
    assert_eq!(refusal_text(&r), "Expected peer role worker, got worke");
}

#[test]
fn owned_role_is_compared_by_its_text() {
    let mut a = Authenticator::new(3, "server", "worker", None);
    let q = AuthenticationRequest {
        protocol: 3,
        role: Cow::Owned("worker".to_string()),
        mode: AuthenticationMode::NoAuth,
    };
    assert!(a.find_refusal(&q).is_none());
    assert!(matches!(
        a.make_auth_response(q).unwrap(),
        AuthenticationResponse::NoAuth
    ));
}

#[test]
fn challenge_of_another_length_is_refused() {
    let mut a = Authenticator::new(0, "a", "b", new_key());
    let r = a.make_auth_response(request(0, "b", challenge(15))).unwrap();
    assert_eq!(refusal_text(&r), "Invalid length of challenge (15)");
    let r = a.make_auth_response(request(0, "b", challenge(100))).unwrap();
    assert_eq!(refusal_text(&r), "Invalid length of challenge (100)");
    let r = a.make_auth_response(request(0, "b", challenge(0))).unwrap();
    assert_eq!(refusal_text(&r), "Invalid length of challenge (0)");
}

#[test]
fn key_on_one_side_only_is_refused() {
    let mut a = Authenticator::new(0, "a", "b", None);
    let r = a.make_auth_response(request(0, "b", challenge(16))).unwrap();
    assert_eq!(refusal_text(&r), "Peer requests authentication");

    let mut a = Authenticator::new(0, "a", "b", new_key());
    let q = request(0, "b", AuthenticationMode::NoAuth);
    let r = a.make_auth_response(q).unwrap();
    assert_eq!(refusal_text(&r), "Peer does not support authentication");
}

#[test]
fn key_of_another_length_cannot_answer() {
    let key = Some(Arc::new(SecretKey::generate(31).unwrap()));
    let mut a = Authenticator::new(0, "a", "b", key);
    match a.make_auth_response(request(0, "b", challenge(16))) {
        Err(DsError::GenericError(text)) => assert_eq!(text, "Creating sealer failed"),
        _ => panic!("expected an error"),
    }
}

#[test]
fn answer_opens_to_the_role_and_the_challenge() {
    let key = Arc::new(SecretKey::generate(32).unwrap());
    let mut a = Authenticator::new(0, "worker", "server", Some(key.clone()));
    let r = a
        .make_auth_response(request(0, "server", challenge(16)))
        .unwrap();
    let AuthenticationResponse::Encryption(r) = r else {
        panic!("expected an answer");
    };
    assert_eq!(r.nonce.len(), 24);
    assert_eq!(r.response.len(), 6 + 16 + 17);
    let nonce = Nonce::from_slice(&r.nonce).unwrap();
    let mut opener = StreamOpener::new(&key, &nonce).unwrap();
    let (opened, tag) = opener.open_chunk(&r.response).unwrap();
    assert!(tag == StreamTag::Message);
    let mut expected = b"worker".to_vec();
    expected.extend_from_slice(&[7; 16]);
    assert_eq!(opened, expected);
}

#[test]
fn answer_text_is_the_role_followed_by_the_challenge() {
    assert_eq!(challenge_answer("ab", &vec![1, 2]), vec![97, 98, 1, 2]);
    assert_eq!(challenge_answer("\u{e9}", &vec![]), vec![0xc3, 0xa9]);
}

#[test]
fn response_keeps_the_sealer() {
    let key = Arc::new(SecretKey::generate(32).unwrap());
    let (sealer, _) = StreamSealer::new(&key).unwrap();
    let mut a = Authenticator::new(0, "a", "b", None);
    let r = a.response_with_sealer(sealer, vec![1], vec![2, 3]);
    let AuthenticationResponse::Encryption(r) = r else {
        panic!("expected an answer");
    };
    assert_eq!(r.nonce, vec![1]);
    assert_eq!(r.response, vec![2, 3]);
    let (sealer, opener) = a
        .finish_authentication(AuthenticationResponse::NoAuth)
        .unwrap();
    assert!(sealer.is_some());
    assert!(opener.is_none());
}

#[test]
fn opened_answer_is_checked() {
    let mut a = Authenticator::new(0, "a", "peer", new_key());
    a.request_with_challenge(vec![1, 2]);
    let good = vec![112, 101, 101, 114, 1, 2];
    assert!(a.check_opened_answer(&good, ChunkTag::Message).is_ok());
    let text = "Received challenge does not match.";
    for tag in [ChunkTag::Push, ChunkTag::Rekey, ChunkTag::Finish] {
        assert_eq!(rejection(a.check_opened_answer(&good, tag)), text);
    }
    let bad = vec![112, 101, 101, 114, 1, 3];
    assert_eq!(rejection(a.check_opened_answer(&bad, ChunkTag::Message)), text);
    assert_eq!(
        rejection(a.check_opened_answer(&vec![], ChunkTag::Message)),
        text
    );
}

#[test]
fn refusing_side_accepts_no_answer() {
    let mut a = Authenticator::new(3, "a", "b", None);
    a.make_auth_response(request(4, "b", AuthenticationMode::NoAuth))
        .unwrap();
    // A good request after the refusal changes nothing.
    a.make_auth_response(request(3, "b", AuthenticationMode::NoAuth))
        .unwrap();
    assert_eq!(
        rejection(a.finish_authentication(AuthenticationResponse::NoAuth)),
        "Authentication failed: Invalid version of protocol, expected 3, got 4"
    );
}

#[test]
fn error_can_be_made_for_any_reason() {
    let mut a = Authenticator::new(0, "a", "b", None);
    let r = a._make_error("because".to_string()).unwrap();
    assert_eq!(refusal_text(&r), "because");
    assert_eq!(
        rejection(a.finish_authentication(AuthenticationResponse::NoAuth)),
        "Authentication failed: because"
    );
}

#[test]
fn refused_side_tells_the_reason_of_its_peer() {
    let a = Authenticator::new(0, "a", "b", None);
    let refusal = AuthenticationResponse::Error(AuthenticationError {
        message: "no".to_string(),
    });
    assert_eq!(
        rejection(a.finish_authentication(refusal)),
        "Received authentication error: no"
    );
}

#[test]
fn response_of_the_other_mode_is_rejected() {
    let a = Authenticator::new(0, "a", "b", new_key());
    assert_eq!(
        rejection(a.finish_authentication(AuthenticationResponse::NoAuth)),
        "Invalid authentication state"
    );
    let a = Authenticator::new(0, "a", "b", None);
    let r = AuthenticationResponse::Encryption(EncryptionResponse {
        nonce: vec![0; 24],
        response: vec![],
    });
    assert_eq!(
        rejection(a.finish_authentication(r)),
        "Invalid authentication state"
    );
}

fn finish_with(key_length: usize, nonce: Vec<u8>, response: Vec<u8>) -> String {
    let key = Some(Arc::new(SecretKey::generate(key_length).unwrap()));
    let a = Authenticator::new(0, "a", "b", key);
    let r = AuthenticationResponse::Encryption(EncryptionResponse { nonce, response });
    rejection(a.finish_authentication(r))
}

#[test]
fn malformed_answers_are_rejected() {
    assert_eq!(finish_with(32, vec![0; 23], vec![]), "Invalid nonce");
    assert_eq!(finish_with(31, vec![0; 25], vec![]), "Invalid nonce");
    assert_eq!(
        finish_with(31, vec![0; 24], vec![]),
        "Failed to create opener"
    );
    assert_eq!(
        finish_with(32, vec![0; 24], vec![]),
        "Cannot verify challenge"
    );
    assert_eq!(
        finish_with(32, vec![0; 24], vec![0; 60]),
        "Cannot verify challenge"
    );
}

#[test]
fn answer_to_another_challenge_is_rejected() {
    let key = new_key();
    let mut a1 = Authenticator::new(0, "a", "b", key.clone());
    let mut a2 = Authenticator::new(0, "b", "a", key);
    let stale = a1.make_auth_request().unwrap();
    a1.make_auth_request().unwrap();
    let r2 = a2.make_auth_response(stale).unwrap();
    assert_eq!(
        rejection(a1.finish_authentication(r2)),
        "Received challenge does not match."
    );
}

#[test]
fn reflected_request_is_rejected_for_its_role() {
    let mut a1 = Authenticator::new(0, "a", "b", new_key());
    let mut q1 = a1.make_auth_request().unwrap();
    q1.role = Cow::Borrowed("b");
    let r1 = a1.make_auth_response(q1).unwrap();
    assert!(matches!(&r1, AuthenticationResponse::Encryption(_)));
    assert_eq!(
        rejection(a1.finish_authentication(r1)),
        "Received challenge does not match."
    );
}

#[test]
fn error_tells_its_message() {
    assert_eq!(DsError::generic("x").message(), "x");
    assert_eq!(DsError::rejected("y").message(), "y");
}
