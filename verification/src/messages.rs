//! The messages that two peers exchange to authenticate each other.

use std::borrow::Cow;
use vstd::prelude::*;

verus! {

/// Random bytes that the peer has to seal to prove that it has the key.
#[derive(Debug)]
pub struct Challenge {
    pub challenge: Vec<u8>,
}

/// How a peer wants the connection to be protected.
#[derive(Debug)]
pub enum AuthenticationMode {
    /// Not at all.
    NoAuth,
    /// By a shared key.
    Encryption(Challenge),
}

/// The first message of a peer.
#[derive(Debug)]
pub struct AuthenticationRequest {
    pub protocol: u32,
    pub role: Cow<'static, str>,
    pub mode: AuthenticationMode,
}

/// The answer to a challenge: the nonce of the stream of the answering peer, and its first chunk.
#[derive(Debug)]
pub struct EncryptionResponse {
    pub nonce: Vec<u8>,
    pub response: Vec<u8>,
}

/// Why a request was refused.
#[derive(Debug)]
pub struct AuthenticationError {
    pub message: String,
}

/// The second message of a peer, its answer to the first message of the other.
#[derive(Debug)]
pub enum AuthenticationResponse {
    NoAuth,
    Encryption(EncryptionResponse),
    Error(AuthenticationError),
}

/// A wish for protection, with the challenge as a sequence of bytes.
pub enum ModeView {
    NoAuth,
    Encryption(Seq<u8>),
}

/// A request, with its contents as sequences.
pub struct RequestView {
    pub protocol: u32,
    pub role: Seq<char>,
    pub mode: ModeView,
}

/// A response, with its contents as sequences.
pub enum ResponseView {
    NoAuth,
    Encryption { nonce: Seq<u8>, response: Seq<u8> },
    Error(Seq<char>),
}

impl View for AuthenticationMode {
    type V = ModeView;

    open spec fn view(&self) -> ModeView {
        match self {
            AuthenticationMode::NoAuth => ModeView::NoAuth,
            AuthenticationMode::Encryption(msg) => ModeView::Encryption(msg.challenge@),
        }
    }
}

impl View for AuthenticationRequest {
    type V = RequestView;

    open spec fn view(&self) -> RequestView {
        RequestView { protocol: self.protocol, role: self.role@, mode: self.mode@ }
    }
}

impl View for AuthenticationResponse {
    type V = ResponseView;

    open spec fn view(&self) -> ResponseView {
        match self {
            AuthenticationResponse::NoAuth => ResponseView::NoAuth,
            AuthenticationResponse::Encryption(msg) => ResponseView::Encryption {
                nonce: msg.nonce@,
                response: msg.response@,
            },
            AuthenticationResponse::Error(error) => ResponseView::Error(error.message@),
        }
    }
}

} // verus!
