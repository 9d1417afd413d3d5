//! The course of an authentication over a connection: a peer sends its request, receives that of
//! the other, sends its response, receives that of the other, and accepts the other or not.
//!
//! A handshake says what to do on the connection; it is told what came of it and says what to do
//! next.

use crate::auth::{
    accepted_stream, finish_failure, key_view, opener_view, requests, responds, role_fits,
    sealer_view, AuthState, Authenticator,
};
use crate::error::{DsError, ErrorView};
use crate::messages::{
    AuthenticationRequest, AuthenticationResponse, RequestView, ResponseView,
};
use crate::stream::StreamState;
use orion::aead::streaming::{StreamOpener, StreamSealer};
use orion::errors::UnknownCryptoError;
use orion::kdf::SecretKey;
use orion::util::secure_rand_bytes;
use std::sync::Arc;
use vstd::prelude::*;

verus! {

/// How long each step on the connection may take, in seconds.
pub const AUTH_TIMEOUT_SECS: u64 = 15;

/// What came of sending a message.
#[derive(Clone, Copy, Debug, PartialEq, Eq, Structural)]
pub enum SendOutcome {
    Sent,
    TimedOut,
    Failed,
}

/// What came of waiting for a message.
pub enum Received<T> {
    Message(T),
    TimedOut,
    /// The other side has closed the connection.
    Closed,
}

/// What has happened on the connection.
pub enum HandshakeEvent {
    Send(SendOutcome),
    Request(Received<AuthenticationRequest>),
    Response(Received<AuthenticationResponse>),
}

/// What a handshake waits for.
#[derive(Clone, Copy, Debug, PartialEq, Eq, Structural)]
pub enum HandshakePhase {
    SendingRequest,
    AwaitingRequest,
    SendingResponse,
    AwaitingResponse,
}

/// An authentication under way.
pub struct Handshake {
    authenticator: Authenticator,
    phase: HandshakePhase,
}

/// What to do next.
pub enum HandshakeAction {
    /// Wait for the request of the peer.
    ReceiveRequest(Handshake),
    /// Send a response to the peer.
    SendResponse(Handshake, AuthenticationResponse),
    /// Wait for the response of the peer.
    ReceiveResponse(Handshake),
    /// Go on with the connection, with the ends of its streams if it is encrypted.
    Accept(Option<StreamSealer>, Option<StreamOpener>),
    /// Give up.
    Fail(DsError),
}

/// An authentication under way: what the side knows and what it waits for.
pub struct HandshakeState {
    pub auth: AuthState,
    pub phase: HandshakePhase,
}

/// What has happened on the connection, with the contents as sequences.
pub enum EventView {
    Send(SendOutcome),
    Request(Received<RequestView>),
    Response(Received<ResponseView>),
}

/// What to do next, with the contents as sequences.
pub enum ActionView {
    ReceiveRequest(HandshakeState),
    SendResponse(HandshakeState, ResponseView),
    ReceiveResponse(HandshakeState),
    Accept(Option<StreamState>, Option<StreamState>),
    Fail(ErrorView),
}

impl View for Handshake {
    type V = HandshakeState;

    closed spec fn view(&self) -> HandshakeState {
        HandshakeState { auth: self.authenticator@, phase: self.phase }
    }
}

impl View for HandshakeEvent {
    type V = EventView;

    open spec fn view(&self) -> EventView {
        match self {
            HandshakeEvent::Send(outcome) => EventView::Send(*outcome),
            HandshakeEvent::Request(Received::Message(request)) => EventView::Request(
                Received::Message(request@),
            ),
            HandshakeEvent::Request(Received::TimedOut) => EventView::Request(Received::TimedOut),
            HandshakeEvent::Request(Received::Closed) => EventView::Request(Received::Closed),
            HandshakeEvent::Response(Received::Message(response)) => EventView::Response(
                Received::Message(response@),
            ),
            HandshakeEvent::Response(Received::TimedOut) => EventView::Response(
                Received::TimedOut,
            ),
            HandshakeEvent::Response(Received::Closed) => EventView::Response(Received::Closed),
        }
    }
}

impl View for HandshakeAction {
    type V = ActionView;

    open spec fn view(&self) -> ActionView {
        match self {
            HandshakeAction::ReceiveRequest(next) => ActionView::ReceiveRequest(next@),
            HandshakeAction::SendResponse(next, response) => ActionView::SendResponse(
                next@,
                response@,
            ),
            HandshakeAction::ReceiveResponse(next) => ActionView::ReceiveResponse(next@),
            HandshakeAction::Accept(sealer, opener) => ActionView::Accept(
                sealer_view(*sealer),
                opener_view(*opener),
            ),
            HandshakeAction::Fail(e) => ActionView::Fail(e@),
        }
    }
}

/// Whether an event is of the kind that a handshake waits for.
pub open spec fn expects(phase: HandshakePhase, event: EventView) -> bool {
    match phase {
        HandshakePhase::SendingRequest | HandshakePhase::SendingResponse => event is Send,
        HandshakePhase::AwaitingRequest => event is Request,
        HandshakePhase::AwaitingResponse => event is Response,
    }
}

/// The text of the failure to send, where `timeout` tells that it took too long.
pub open spec fn send_failure(outcome: SendOutcome, timeout: Seq<char>) -> Option<ErrorView> {
    match outcome {
        SendOutcome::Sent => None,
        SendOutcome::TimedOut => Some(ErrorView::Generic(timeout)),
        SendOutcome::Failed => Some(ErrorView::Generic("Sending authentication failed"@)),
    }
}

/// The error of a message that took too long to arrive.
pub open spec fn no_message() -> ErrorView {
    ErrorView::Generic("Authentication message did not arrived"@)
}

/// The error of a connection that the other side has closed.
pub open spec fn closed_connection() -> ErrorView {
    ErrorView::Generic("The remote side closed connection without authentication message"@)
}

/// Whether `action` is what follows `event` in the handshake `state`.
pub open spec fn advances(state: HandshakeState, event: EventView, action: ActionView) -> bool {
    match (state.phase, event) {
        (HandshakePhase::SendingRequest, EventView::Send(outcome)) => action == match send_failure(
            outcome,
            "Sending authentication timeout"@,
        ) {
            Some(e) => ActionView::Fail(e),
            None => ActionView::ReceiveRequest(
                HandshakeState { phase: HandshakePhase::AwaitingRequest, ..state },
            ),
        },
        (HandshakePhase::AwaitingRequest, EventView::Request(received)) => match received {
            Received::Message(request) => match action {
                ActionView::SendResponse(next, response) => {
                    &&& responds(
                        state.auth,
                        request,
                        Ok::<ResponseView, ErrorView>(response),
                        next.auth,
                    )
                    &&& next.phase == HandshakePhase::SendingResponse
                },
                ActionView::Fail(e) => responds(
                    state.auth,
                    request,
                    Err::<ResponseView, ErrorView>(e),
                    state.auth,
                ),
                _ => false,
            },
            Received::TimedOut => action == ActionView::Fail(no_message()),
            Received::Closed => action == ActionView::Fail(closed_connection()),
        },
        (HandshakePhase::SendingResponse, EventView::Send(outcome)) => action == match send_failure(
            outcome,
            "Sending authentication timeouted"@,
        ) {
            Some(e) => ActionView::Fail(e),
            None => ActionView::ReceiveResponse(
                HandshakeState { phase: HandshakePhase::AwaitingResponse, ..state },
            ),
        },
        (HandshakePhase::AwaitingResponse, EventView::Response(received)) => action
            == match received {
            Received::Message(response) => match finish_failure(state.auth, response) {
                Some(reason) => ActionView::Fail(ErrorView::Rejected(reason)),
                None => ActionView::Accept(
                    state.auth.sealer,
                    accepted_stream(state.auth, response),
                ),
            },
            Received::TimedOut => ActionView::Fail(no_message()),
            Received::Closed => ActionView::Fail(closed_connection()),
        },
        _ => false,
    }
}

/// Starts an authentication with the peer at the other end of a connection. The request is to be
/// sent first.
pub fn do_authentication(
    protocol: u32,
    my_role: &'static str,
    peer_role: &'static str,
    secret_key: Option<Arc<SecretKey>>,
) -> (r: Result<(Handshake, AuthenticationRequest), DsError>)
    ensures
        r matches Ok((handshake, request)) && {
            &&& handshake@.phase == HandshakePhase::SendingRequest
            &&& requests(
                AuthState::fresh(protocol, my_role@, peer_role@, key_view(secret_key)),
                request@,
                handshake@.auth,
            )
            &&& secret_key is Some ==> exists|
                buffer: &mut [u8],
                filled: Result<(), UnknownCryptoError>,
            |
                {
                    &&& #[trigger] call_ensures(secure_rand_bytes, (buffer,), filled)
                    &&& filled is Ok
                    &&& final(buffer)@ == handshake@.auth.challenge
                }
        },
{
    let mut authenticator = Authenticator::new(protocol, my_role, peer_role, secret_key);
    match authenticator.make_auth_request() {
        Ok(request) => Ok(
            (Handshake { authenticator, phase: HandshakePhase::SendingRequest }, request),
        ),
        Err(e) => Err(e),
    }
}

impl Handshake {
    /// What the handshake waits for.
    pub fn phase(&self) -> (r: HandshakePhase)
        ensures
            r == self@.phase,
    {
        self.phase
    }

    /// What to do after `event`.
    pub fn advance(self, event: HandshakeEvent) -> (r: HandshakeAction)
        requires
            expects(self@.phase, event@),
            self@.phase == HandshakePhase::AwaitingRequest ==> role_fits(self@.auth.my_role),
        ensures
            advances(self@, event@, r@),
    {
        let mut authenticator = self.authenticator;
        match (self.phase, event) {
            (HandshakePhase::SendingRequest, HandshakeEvent::Send(outcome)) => match outcome {
                SendOutcome::Sent => HandshakeAction::ReceiveRequest(
                    Handshake { authenticator, phase: HandshakePhase::AwaitingRequest },
                ),
                SendOutcome::TimedOut => HandshakeAction::Fail(
                    DsError::generic("Sending authentication timeout"),
                ),
                SendOutcome::Failed => HandshakeAction::Fail(
                    DsError::generic("Sending authentication failed"),
                ),
            },
            (HandshakePhase::AwaitingRequest, HandshakeEvent::Request(received)) => {
                match received {
                    Received::Message(request) => match authenticator.make_auth_response(request) {
                        Ok(response) => HandshakeAction::SendResponse(
                            Handshake { authenticator, phase: HandshakePhase::SendingResponse },
                            response,
                        ),
                        Err(e) => HandshakeAction::Fail(e),
                    },
                    Received::TimedOut => HandshakeAction::Fail(
                        DsError::generic("Authentication message did not arrived"),
                    ),
                    Received::Closed => HandshakeAction::Fail(
                        DsError::generic(
                            "The remote side closed connection without authentication message",
                        ),
                    ),
                }
            },
            (HandshakePhase::SendingResponse, HandshakeEvent::Send(outcome)) => match outcome {
                SendOutcome::Sent => HandshakeAction::ReceiveResponse(
                    Handshake { authenticator, phase: HandshakePhase::AwaitingResponse },
                ),
                SendOutcome::TimedOut => HandshakeAction::Fail(
                    DsError::generic("Sending authentication timeouted"),
                ),
                SendOutcome::Failed => HandshakeAction::Fail(
                    DsError::generic("Sending authentication failed"),
                ),
            },
            (_, HandshakeEvent::Response(Received::Message(response))) => {
                match authenticator.finish_authentication(response) {
                    Ok((sealer, opener)) => HandshakeAction::Accept(sealer, opener),
                    Err(e) => HandshakeAction::Fail(e),
                }
            },
            (_, HandshakeEvent::Response(Received::TimedOut)) => HandshakeAction::Fail(
                DsError::generic("Authentication message did not arrived"),
            ),
            _ => HandshakeAction::Fail(
                DsError::generic(
                    "The remote side closed connection without authentication message",
                ),
            ),
        }
    }
}

} // verus!
