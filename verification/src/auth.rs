//! Mutual authentication of two peers.
//!
//! Each peer sends a request with the version of its protocol, its role and, where it has a key, a
//! random challenge. Each answers the request of the other, with its own role and the challenge of
//! the other, sealed under the key, or with the reason why it refuses. Each accepts the other when
//! the answer opens to what it expects. The streams that sealed and opened the answers then carry
//! the messages of the connection.

use crate::error::{DsError, ErrorView};
use crate::messages::{
    AuthenticationError, AuthenticationMode, AuthenticationRequest, AuthenticationResponse,
    Challenge, EncryptionResponse, ModeView, RequestView, ResponseView,
};
use crate::stream::{
    new_sealer, open_chunk, opener_state, seal_chunk, sealer_state, secret_key_bytes, ChunkTag,
    StreamState, CHUNK_OVERHEAD, MAX_CHUNK_PLAINTEXT, STREAM_KEY_LENGTH, STREAM_NONCE_LENGTH,
};
use crate::text::{append_decimal, decimal, same_text};
use orion::aead::streaming::{Nonce, StreamOpener, StreamSealer};
use orion::errors::UnknownCryptoError;
use orion::kdf::SecretKey;
use orion::util::secure_rand_bytes;
use std::borrow::Cow;
use std::sync::Arc;
use vstd::prelude::*;
use vstd::utf8::encode_utf8;

verus! {

/// The length of a challenge.
pub const CHALLENGE_LENGTH: usize = 16;

/// One side of an authentication.
pub struct Authenticator {
    protocol: u32,
    my_role: &'static str,
    peer_role: &'static str,
    secret_key: Option<Arc<SecretKey>>,
    challenge: Vec<u8>,
    sealer: Option<StreamSealer>,
    error: Option<String>,
}

/// What one side of an authentication knows.
#[verifier::ext_equal]
pub struct AuthState {
    pub protocol: u32,
    pub my_role: Seq<char>,
    pub peer_role: Seq<char>,
    /// The bytes of the shared key, if there is one.
    pub key: Option<Seq<u8>>,
    /// The challenge that the peer has to answer; empty while none was sent.
    pub challenge: Seq<u8>,
    /// The sending end of the stream, once the challenge of the peer was answered.
    pub sealer: Option<StreamState>,
    /// The reason why the peer was refused, if it was.
    pub error: Option<Seq<char>>,
}

impl AuthState {
    /// One side of an authentication that nothing has happened in yet.
    pub open spec fn fresh(
        protocol: u32,
        my_role: Seq<char>,
        peer_role: Seq<char>,
        key: Option<Seq<u8>>,
    ) -> AuthState {
        AuthState {
            protocol,
            my_role,
            peer_role,
            key,
            challenge: Seq::empty(),
            sealer: None,
            error: None,
        }
    }
}

/// The bytes of a shared key.
pub open spec fn key_view(key: Option<Arc<SecretKey>>) -> Option<Seq<u8>> {
    match key {
        Some(key) => Some(secret_key_bytes(*key)),
        None => None,
    }
}

/// The state of a sealer that may be missing.
pub open spec fn sealer_view(sealer: Option<StreamSealer>) -> Option<StreamState> {
    match sealer {
        Some(sealer) => Some(sealer_state(sealer)),
        None => None,
    }
}

/// The state of an opener that may be missing.
pub open spec fn opener_view(opener: Option<StreamOpener>) -> Option<StreamState> {
    match opener {
        Some(opener) => Some(opener_state(opener)),
        None => None,
    }
}

/// A text that may be missing, as a sequence of characters.
pub open spec fn text_view(text: Option<String>) -> Option<Seq<char>> {
    match text {
        Some(text) => Some(text@),
        None => None,
    }
}

/// What a peer in the role `role` seals in answer to `challenge`.
pub open spec fn answer_text(role: Seq<char>, challenge: Seq<u8>) -> Seq<u8> {
    encode_utf8(role) + challenge
}

/// Whether an answer in the role `role` fits in memory, sealed.
pub open spec fn role_fits(role: Seq<char>) -> bool {
    encode_utf8(role).len() + CHALLENGE_LENGTH + CHUNK_OVERHEAD <= isize::MAX
}

/// Why `state` refuses `request`, if it does: the protocols differ, the role is not the expected
/// one, only one side has a key, or the challenge has a wrong length.
pub open spec fn refusal(state: AuthState, request: RequestView) -> Option<Seq<char>> {
    if request.protocol != state.protocol {
        Some(
            "Invalid version of protocol, expected "@ + decimal(state.protocol as nat) + ", got "@
                + decimal(request.protocol as nat),
        )
    } else if request.role != state.peer_role {
        Some("Expected peer role "@ + state.peer_role + ", got "@ + request.role)
    } else {
        match (request.mode, state.key) {
            (ModeView::NoAuth, None) => None,
            (ModeView::Encryption(challenge), Some(_)) => if challenge.len() != CHALLENGE_LENGTH {
                Some("Invalid length of challenge ("@ + decimal(challenge.len()) + ")"@)
            } else {
                None
            },
            (ModeView::Encryption(_), None) => Some("Peer requests authentication"@),
            (ModeView::NoAuth, Some(_)) => Some("Peer does not support authentication"@),
        }
    }
}

/// Whether `request` is one that `before` can send, and `after` what it knows then. The request
/// carries a challenge where there is a key.
pub open spec fn requests(before: AuthState, request: RequestView, after: AuthState) -> bool {
    &&& request.protocol == before.protocol
    &&& request.role == before.my_role
    &&& match before.key {
        Some(_) => {
            &&& request.mode == ModeView::Encryption(after.challenge)
            &&& after.challenge.len() == CHALLENGE_LENGTH
            &&& after == (AuthState { challenge: after.challenge, ..before })
        },
        None => request.mode == ModeView::NoAuth && after == before,
    }
}

/// Whether `nonce` and `response` answer `challenge` in the role `role` under `key`: the response
/// is the first chunk of the stream, and opens to the role and the challenge.
pub open spec fn answers(
    key: Seq<u8>,
    role: Seq<char>,
    challenge: Seq<u8>,
    nonce: Seq<u8>,
    response: Seq<u8>,
) -> bool {
    let stream = StreamState::fresh(key, nonce);
    let text = answer_text(role, challenge);
    &&& nonce.len() == STREAM_NONCE_LENGTH
    &&& response == stream.seal(text, ChunkTag::Message)
    &&& stream.open(response) == Some((text, ChunkTag::Message.code()))
}

/// Whether `before` can answer `request` by `response`, and `after` is what it knows then.
pub open spec fn responds(
    before: AuthState,
    request: RequestView,
    response: Result<ResponseView, ErrorView>,
    after: AuthState,
) -> bool {
    match refusal(before, request) {
        Some(reason) => {
            &&& response == Ok::<ResponseView, ErrorView>(ResponseView::Error(reason))
            &&& after == (AuthState { error: Some(reason), ..before })
        },
        None => match (request.mode, before.key) {
            (ModeView::Encryption(challenge), Some(key)) => if key.len() != STREAM_KEY_LENGTH {
                &&& response == Err::<ResponseView, ErrorView>(
                    ErrorView::Generic("Creating sealer failed"@),
                )
                &&& after == before
            } else if answer_text(before.my_role, challenge).len() > MAX_CHUNK_PLAINTEXT {
                &&& response == Err::<ResponseView, ErrorView>(
                    ErrorView::Generic("Cannot seal challenge"@),
                )
                &&& after == before
            } else {
                &&& response matches Ok(ResponseView::Encryption { nonce, response })
                &&& answers(key, before.my_role, challenge, nonce, response)
                &&& after == (AuthState {
                    sealer: Some(StreamState::fresh(key, nonce).after(response)),
                    ..before
                })
            },
            _ => {
                &&& response == Ok::<ResponseView, ErrorView>(ResponseView::NoAuth)
                &&& after == before
            },
        },
    }
}

/// Why an opened answer is not the expected one, if it is not.
pub open spec fn answer_failure(state: AuthState, opened: Seq<u8>, tag: u8) -> Option<Seq<char>> {
    if tag != ChunkTag::Message.code() || opened != answer_text(state.peer_role, state.challenge) {
        Some("Received challenge does not match."@)
    } else {
        None
    }
}

/// Why `state` does not accept its peer on `response`, if it does not.
pub open spec fn finish_failure(state: AuthState, response: ResponseView) -> Option<Seq<char>> {
    match state.error {
        Some(error) => Some("Authentication failed: "@ + error),
        None => match (response, state.key) {
            (ResponseView::Error(message), _) => Some("Received authentication error: "@ + message),
            (ResponseView::NoAuth, None) => None,
            (ResponseView::Encryption { nonce, response }, Some(key)) => if nonce.len()
                != STREAM_NONCE_LENGTH {
                Some("Invalid nonce"@)
            } else if key.len() != STREAM_KEY_LENGTH {
                Some("Failed to create opener"@)
            } else {
                match StreamState::fresh(key, nonce).open(response) {
                    Some((opened, tag)) => answer_failure(state, opened, tag),
                    None => Some("Cannot verify challenge"@),
                }
            },
            _ => Some("Invalid authentication state"@),
        },
    }
}

/// The receiving end of the stream that an accepted `response` opens.
pub open spec fn accepted_stream(state: AuthState, response: ResponseView) -> Option<StreamState> {
    match (response, state.key) {
        (ResponseView::Encryption { nonce, response }, Some(key)) => Some(
            StreamState::fresh(key, nonce).after(response),
        ),
        _ => None,
    }
}

/// What a peer in the role `role` seals in answer to `challenge`.
pub fn challenge_answer(role: &str, challenge: &Vec<u8>) -> (r: Vec<u8>)
    ensures
        r@ == answer_text(role@, challenge@),
{
    let mut answer: Vec<u8> = Vec::new();
    answer.extend_from_slice(role.as_bytes());
    answer.extend_from_slice(challenge.as_slice());
    assert(answer@ =~= answer_text(role@, challenge@));
    answer
}

impl View for Authenticator {
    type V = AuthState;

    closed spec fn view(&self) -> AuthState {
        AuthState {
            protocol: self.protocol,
            my_role: self.my_role@,
            peer_role: self.peer_role@,
            key: key_view(self.secret_key),
            challenge: self.challenge@,
            sealer: sealer_view(self.sealer),
            error: text_view(self.error),
        }
    }
}

impl Authenticator {
    /// The side in the role `role` of an authentication with a peer in the role `peer_role`.
    pub fn new(
        protocol: u32,
        role: &'static str,
        peer_role: &'static str,
        secret_key: Option<Arc<SecretKey>>,
    ) -> (r: Self)
        ensures
            r@ == AuthState::fresh(protocol, role@, peer_role@, key_view(secret_key)),
    {
        Authenticator {
            protocol,
            my_role: role,
            peer_role,
            secret_key,
            challenge: Vec::new(),
            sealer: None,
            error: None,
        }
    }

    /// The first message to the peer, with a random challenge where there is a key: the bytes that
    /// `secure_rand_bytes` filled a buffer with.
    pub fn make_auth_request(&mut self) -> (r: Result<AuthenticationRequest, DsError>)
        ensures
            r matches Ok(request) && requests(old(self)@, request@, final(self)@),
            old(self)@.key is Some ==> exists|
                buffer: &mut [u8],
                filled: Result<(), UnknownCryptoError>,
            |
                {
                    &&& #[trigger] call_ensures(secure_rand_bytes, (buffer,), filled)
                    &&& filled is Ok
                    &&& final(buffer)@ == final(self)@.challenge
                },
    {
        let mut challenge: Vec<u8> = Vec::new();
        if self.secret_key.is_some() {
            challenge.resize(CHALLENGE_LENGTH, 0);
            if secure_rand_bytes(challenge.as_mut_slice()).is_err() {
                return Err(DsError::generic("Generating challenge failed"));
            }
        }
        Ok(self.request_with_challenge(challenge))
    }

    /// The first message to the peer, with the challenge `challenge` where there is a key.
    pub fn request_with_challenge(&mut self, challenge: Vec<u8>) -> (r: AuthenticationRequest)
        ensures
            r@ == (RequestView {
                protocol: old(self)@.protocol,
                role: old(self)@.my_role,
                mode: match old(self)@.key {
                    Some(_) => ModeView::Encryption(challenge@),
                    None => ModeView::NoAuth,
                },
            }),
            final(self)@ == match old(self)@.key {
                Some(_) => AuthState { challenge: challenge@, ..old(self)@ },
                None => old(self)@,
            },
    {
        let mode = if self.secret_key.is_some() {
            self.challenge = challenge.clone();
            assert(self.challenge@ =~= challenge@);
            AuthenticationMode::Encryption(Challenge { challenge })
        } else {
            AuthenticationMode::NoAuth
        };
        AuthenticationRequest { protocol: self.protocol, role: Cow::Borrowed(self.my_role), mode }
    }

    /// Refuses the peer for the reason `message`.
    pub fn _make_error(&mut self, message: String) -> (r: Result<AuthenticationResponse, DsError>)
        ensures
            r matches Ok(response) && response@ == ResponseView::Error(message@),
            final(self)@ == (AuthState { error: Some(message@), ..old(self)@ }),
    {
        self.error = Some(message.clone());
        Ok(AuthenticationResponse::Error(AuthenticationError { message }))
    }

    /// Why the peer is refused on its request, if it is.
    pub fn find_refusal(&self, message: &AuthenticationRequest) -> (r: Option<String>)
        ensures
            text_view(r) == refusal(self@, message@),
    {
        if message.protocol != self.protocol {
            let mut reason = "Invalid version of protocol, expected ".to_owned();
            append_decimal(&mut reason, self.protocol as u64);
            reason.append(", got ");
            append_decimal(&mut reason, message.protocol as u64);
            return Some(reason);
        }
        let role: &str = match &message.role {
            Cow::Borrowed(role) => role,
            Cow::Owned(role) => role.as_str(),
        };
        if !same_text(role, self.peer_role) {
            let mut reason = "Expected peer role ".to_owned();
            reason.append(self.peer_role);
            reason.append(", got ");
            reason.append(role);
            return Some(reason);
        }
        match (&message.mode, &self.secret_key) {
            (AuthenticationMode::NoAuth, None) => None,
            (AuthenticationMode::Encryption(msg), Some(_)) => {
                if msg.challenge.len() != CHALLENGE_LENGTH {
                    let mut reason = "Invalid length of challenge (".to_owned();
                    append_decimal(&mut reason, msg.challenge.len() as u64);
                    reason.append(")");
                    Some(reason)
                } else {
                    None
                }
            },
            (AuthenticationMode::Encryption(_), None) => {
                Some("Peer requests authentication".to_owned())
            },
            (AuthenticationMode::NoAuth, Some(_)) => {
                Some("Peer does not support authentication".to_owned())
            },
        }
    }

    /// The answer to a challenge that was sealed by `sealer`, which is kept for the connection.
    pub fn response_with_sealer(
        &mut self,
        sealer: StreamSealer,
        nonce: Vec<u8>,
        response: Vec<u8>,
    ) -> (r: AuthenticationResponse)
        ensures
            r@ == (ResponseView::Encryption { nonce: nonce@, response: response@ }),
            final(self)@ == (AuthState { sealer: Some(sealer_state(sealer)), ..old(self)@ }),
    {
        self.sealer = Some(sealer);
        AuthenticationResponse::Encryption(EncryptionResponse { nonce, response })
    }

    /// The second message to the peer, the answer to its first.
    pub fn make_auth_response(&mut self, message: AuthenticationRequest) -> (r: Result<
        AuthenticationResponse,
        DsError,
    >)
        requires
            role_fits(old(self)@.my_role),
        ensures
            responds(old(self)@, message@, response_view(r), final(self)@),
    {
        if let Some(reason) = self.find_refusal(&message) {
            return self._make_error(reason);
        }
        match (message.mode, &self.secret_key) {
            (AuthenticationMode::Encryption(msg), Some(key)) => {
                let (mut sealer, nonce) = match new_sealer(key) {
                    Ok(made) => made,
                    Err(_) => {
                        return Err(DsError::generic("Creating sealer failed"));
                    },
                };
                let answer = challenge_answer(self.my_role, &msg.challenge);
                let response = match seal_chunk(
                    &mut sealer,
                    answer.as_slice(),
                    ChunkTag::Message,
                ) {
                    Ok(response) => response,
                    Err(_) => {
                        return Err(DsError::generic("Cannot seal challenge"));
                    },
                };
                Ok(self.response_with_sealer(sealer, nonce, response))
            },
            _ => Ok(AuthenticationResponse::NoAuth),
        }
    }

    /// Checks the opened answer of the peer.
    pub fn check_opened_answer(&self, opened: &Vec<u8>, tag: ChunkTag) -> (r: Result<(), DsError>)
        ensures
            match answer_failure(self@, opened@, tag.code()) {
                Some(reason) => r matches Err(e) && e@ == ErrorView::Rejected(reason),
                None => r is Ok,
            },
    {
        let expected = challenge_answer(self.peer_role, &self.challenge);
        let same = *opened == expected;
        assert(same <==> opened@ =~= expected@);
        if tag != ChunkTag::Message || !same {
            return Err(DsError::rejected("Received challenge does not match."));
        }
        Ok(())
    }

    /// Accepts the peer or not on its second message. On acceptance the two ends of the streams
    /// of the connection come back, where there is a key.
    pub fn finish_authentication(self, message: AuthenticationResponse) -> (r: Result<
        (Option<StreamSealer>, Option<StreamOpener>),
        DsError,
    >)
        ensures
            match finish_failure(self@, message@) {
                Some(reason) => r matches Err(e) && e@ == ErrorView::Rejected(reason),
                None => {
                    &&& r matches Ok((sealer, opener))
                    &&& sealer_view(sealer) == self@.sealer
                    &&& opener_view(opener) == accepted_stream(self@, message@)
                },
            },
    {
        if let Some(error) = &self.error {
            let mut reason = "Authentication failed: ".to_owned();
            reason.append(error.as_str());
            return Err(DsError::AuthenticationRejected(reason));
        }
        let opener = match (message, &self.secret_key) {
            (AuthenticationResponse::Error(error), _) => {
                let mut reason = "Received authentication error: ".to_owned();
                reason.append(error.message.as_str());
                return Err(DsError::AuthenticationRejected(reason));
            },
            (AuthenticationResponse::NoAuth, None) => None,
            (AuthenticationResponse::Encryption(response), Some(key)) => {
                let nonce = match Nonce::from_slice(response.nonce.as_slice()) {
                    Ok(nonce) => nonce,
                    Err(_) => {
                        return Err(DsError::rejected("Invalid nonce"));
                    },
                };
                let mut opener = match StreamOpener::new(key, &nonce) {
                    Ok(opener) => opener,
                    Err(_) => {
                        return Err(DsError::rejected("Failed to create opener"));
                    },
                };
                let (opened, tag) = match open_chunk(&mut opener, response.response.as_slice()) {
                    Ok(opened) => opened,
                    Err(_) => {
                        return Err(DsError::rejected("Cannot verify challenge"));
                    },
                };
                match self.check_opened_answer(&opened, tag) {
                    Ok(()) => Some(opener),
                    Err(e) => {
                        return Err(e);
                    },
                }
            },
            _ => {
                return Err(DsError::rejected("Invalid authentication state"));
            },
        };
        Ok((self.sealer, opener))
    }
}

/// An answer or an error, with their contents as sequences.
pub open spec fn response_view(r: Result<AuthenticationResponse, DsError>) -> Result<
    ResponseView,
    ErrorView,
> {
    match r {
        Ok(response) => Ok(response@),
        Err(e) => Err(e@),
    }
}

} // verus!
