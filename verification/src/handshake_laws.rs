//! What holds of a handshake as a whole.

use crate::auth::{
    answer_text, finish_failure, key_view, opener_view, requests, sealer_view, AuthState,
};
use crate::auth_laws::{
    is_answer, is_end, is_reason, lemma_answered, lemma_end, lemma_reason,
    matching_peers_accept_each_other, one_chunk, request_is_accepted_iff_peers_match,
};
use crate::error::{DsError, ErrorView};
use crate::handshake::{
    advances, do_authentication, ActionView, EventView, Handshake, HandshakeAction, HandshakeEvent,
    HandshakePhase, HandshakeState, Received, SendOutcome, AUTH_TIMEOUT_SECS,
};
use crate::messages::{
    AuthenticationMode, AuthenticationRequest, AuthenticationResponse, ModeView, RequestView,
    ResponseView,
};
use crate::stream::{ChunkTag, StreamState, MAX_CHUNK_PLAINTEXT, STREAM_KEY_LENGTH};
use orion::kdf::SecretKey;
use std::sync::Arc;
use vstd::prelude::*;
use vstd::utf8::encode_utf8;

verus! {

/// How many steps of a handshake come before a phase.
pub open spec fn step_number(phase: HandshakePhase) -> nat {
    match phase {
        HandshakePhase::SendingRequest => 0,
        HandshakePhase::AwaitingRequest => 1,
        HandshakePhase::SendingResponse => 2,
        HandshakePhase::AwaitingResponse => 3,
    }
}

/// Every event brings a handshake one step further or ends it, so that it ends after at most four.
pub proof fn handshake_moves_on(state: HandshakeState, event: EventView, action: ActionView)
    requires
        advances(state, event, action),
    ensures
        match action {
            ActionView::ReceiveRequest(next) => step_number(next.phase) == step_number(state.phase)
                + 1,
            ActionView::SendResponse(next, _) => step_number(next.phase) == step_number(
                state.phase,
            ) + 1,
            ActionView::ReceiveResponse(next) => step_number(next.phase) == step_number(
                state.phase,
            ) + 1,
            ActionView::Accept(_, _) => state.phase == HandshakePhase::AwaitingResponse,
            ActionView::Fail(_) => true,
        },
{
}

/// A handshake ends in acceptance only on a response that the peer is accepted on; a message that
/// cannot be sent or does not arrive ends it in failure.
pub proof fn handshake_accepts_only_on_a_response(
    state: HandshakeState,
    event: EventView,
    action: ActionView,
)
    requires
        advances(state, event, action),
    ensures
        action is Accept <==> {
            &&& event matches EventView::Response(Received::Message(response))
            &&& finish_failure(state.auth, response) is None
        },
        match event {
            EventView::Send(outcome) => action is Fail <==> outcome != SendOutcome::Sent,
            EventView::Request(received) => !(received is Message) ==> action is Fail,
            EventView::Response(received) => !(received is Message) ==> action is Fail,
        },
{
}

/// Whether a handshake goes its whole course, with every message arriving: its own messages are
/// sent, and `request` and `response` are what it receives. The actions are what it does after each
/// of the four steps.
pub open spec fn runs(
    start: HandshakeState,
    sent: ActionView,
    request: RequestView,
    answered: ActionView,
    replied: ActionView,
    response: ResponseView,
    end: ActionView,
) -> bool {
    &&& start.phase == HandshakePhase::SendingRequest
    &&& advances(start, EventView::Send(SendOutcome::Sent), sent)
    &&& advances(
        sent->ReceiveRequest_0,
        EventView::Request(Received::Message(request)),
        answered,
    )
    &&& advances(answered->SendResponse_0, EventView::Send(SendOutcome::Sent), replied)
    &&& advances(
        replied->ReceiveResponse_0,
        EventView::Response(Received::Message(response)),
        end,
    )
}

/// Whether a side can answer a challenge: it has no key, or a key of the right length and a role
/// that a chunk can carry together with the challenge.
pub open spec fn can_answer(key: Option<Seq<u8>>, role: Seq<char>, challenge: Seq<u8>) -> bool {
    key matches Some(bytes) ==> {
        &&& bytes.len() == STREAM_KEY_LENGTH
        &&& answer_text(role, challenge).len() <= MAX_CHUNK_PLAINTEXT
    }
}

/// Whether two sides match: they speak the same protocol, each has the role that the other expects,
/// and either both have a key or neither.
pub open spec fn sides_match(side1: AuthState, side2: AuthState) -> bool {
    &&& side1.protocol == side2.protocol
    &&& side1.my_role == side2.peer_role
    &&& side2.my_role == side1.peer_role
    &&& side1.key is Some <==> side2.key is Some
}

/// Two matching peers that share a key of the right length, or have none, and whose messages all
/// arrive, both end in acceptance, and what one seals from then on the other is ready to open.
pub proof fn matching_handshakes_accept(
    protocol: u32,
    role1: Seq<char>,
    role2: Seq<char>,
    key: Option<Seq<u8>>,
    request1: RequestView,
    request2: RequestView,
    start1: HandshakeState,
    start2: HandshakeState,
    sent1: ActionView,
    sent2: ActionView,
    answered1: ActionView,
    answered2: ActionView,
    replied1: ActionView,
    replied2: ActionView,
    end1: ActionView,
    end2: ActionView,
)
    requires
        can_answer(key, role1, start2.auth.challenge),
        can_answer(key, role2, start1.auth.challenge),
        requests(AuthState::fresh(protocol, role1, role2, key), request1, start1.auth),
        requests(AuthState::fresh(protocol, role2, role1, key), request2, start2.auth),
        runs(start1, sent1, request2, answered1, replied1, answered2->SendResponse_1, end1),
        runs(start2, sent2, request1, answered2, replied2, answered1->SendResponse_1, end2),
    ensures
        end1 matches ActionView::Accept(sealer1, opener1) && {
            &&& end2 matches ActionView::Accept(sealer2, opener2)
            &&& sealer1 == opener2
            &&& sealer2 == opener1
            &&& sealer1 is Some <==> key is Some
            &&& sealer2 is Some <==> key is Some
        },
{
    let response1 = match answered1 {
        ActionView::SendResponse(_, response) => Ok::<ResponseView, ErrorView>(response),
        ActionView::Fail(e) => Err(e),
        _ => arbitrary(),
    };
    let response2 = match answered2 {
        ActionView::SendResponse(_, response) => Ok::<ResponseView, ErrorView>(response),
        ActionView::Fail(e) => Err(e),
        _ => arbitrary(),
    };
    let responded1 = match answered1 {
        ActionView::SendResponse(next, _) => next.auth,
        _ => start1.auth,
    };
    let responded2 = match answered2 {
        ActionView::SendResponse(next, _) => next.auth,
        _ => start2.auth,
    };
    matching_peers_accept_each_other(
        protocol,
        role1,
        role2,
        key,
        request1,
        request2,
        start1.auth,
        start2.auth,
        response1,
        response2,
        responded1,
        responded2,
    );
}

/// Two peers that differ in the protocol, in a role or in whether they have a key, and whose
/// messages all arrive, are both rejected: whichever of them refuses, the other learns of it.
pub proof fn differing_handshakes_are_rejected(
    side1: AuthState,
    side2: AuthState,
    request1: RequestView,
    request2: RequestView,
    start1: HandshakeState,
    start2: HandshakeState,
    sent1: ActionView,
    sent2: ActionView,
    answered1: ActionView,
    answered2: ActionView,
    replied1: ActionView,
    replied2: ActionView,
    end1: ActionView,
    end2: ActionView,
)
    requires
        !sides_match(side1, side2),
        can_answer(side1.key, side1.my_role, start2.auth.challenge),
        can_answer(side2.key, side2.my_role, start1.auth.challenge),
        requests(side1, request1, start1.auth),
        requests(side2, request2, start2.auth),
        runs(start1, sent1, request2, answered1, replied1, answered2->SendResponse_1, end1),
        runs(start2, sent2, request1, answered2, replied2, answered1->SendResponse_1, end2),
    ensures
        end1 matches ActionView::Fail(ErrorView::Rejected(_)),
        end2 matches ActionView::Fail(ErrorView::Rejected(_)),
{
    request_is_accepted_iff_peers_match(side1, request1, start1.auth, start2.auth);
    request_is_accepted_iff_peers_match(side2, request2, start2.auth, start1.auth);
    assert(answered1 is SendResponse);
    assert(answered2 is SendResponse);
}

/// Whether a response is an answer that opens under `key`.
pub open spec fn opens_under(key: Seq<u8>, response: ResponseView) -> bool {
    &&& response matches ResponseView::Encryption { nonce, response: sealed }
    &&& StreamState::fresh(key, nonce).open(sealed) is Some
}

/// Whether a response is what a peer in the role `role` answers to `challenge` under `key`: it
/// opens under `key`, to the text of that answer and the tag of a message.
pub open spec fn proves(
    key: Seq<u8>,
    role: Seq<char>,
    challenge: Seq<u8>,
    response: ResponseView,
) -> bool {
    &&& response matches ResponseView::Encryption { nonce, response: sealed }
    &&& StreamState::fresh(key, nonce).open(sealed) == Some(
        (answer_text(role, challenge), ChunkTag::Message.code()),
    )
}

/// Of two peers that both have a key and match in all else, and whose messages all arrive, each
/// accepts the other if the answer of the other opens under its own key to the text that it
/// expects, and rejects it otherwise. Where the answer does not open at all, the challenge cannot
/// be verified. Which chunks open under a key that did not seal them is up to the cipher.
pub proof fn matching_handshakes_accept_iff_answers_prove_the_key(
    side1: AuthState,
    side2: AuthState,
    key1: Seq<u8>,
    key2: Seq<u8>,
    request1: RequestView,
    request2: RequestView,
    start1: HandshakeState,
    start2: HandshakeState,
    sent1: ActionView,
    sent2: ActionView,
    answered1: ActionView,
    answered2: ActionView,
    replied1: ActionView,
    replied2: ActionView,
    end1: ActionView,
    end2: ActionView,
)
    requires
        sides_match(side1, side2),
        side1.key == Some(key1),
        side2.key == Some(key2),
        side1.error is None,
        side2.error is None,
        can_answer(side1.key, side1.my_role, start2.auth.challenge),
        can_answer(side2.key, side2.my_role, start1.auth.challenge),
        requests(side1, request1, start1.auth),
        requests(side2, request2, start2.auth),
        runs(start1, sent1, request2, answered1, replied1, answered2->SendResponse_1, end1),
        runs(start2, sent2, request1, answered2, replied2, answered1->SendResponse_1, end2),
    ensures
        end1 is Accept <==> proves(
            key1,
            side2.my_role,
            start1.auth.challenge,
            answered2->SendResponse_1,
        ),
        end2 is Accept <==> proves(
            key2,
            side1.my_role,
            start2.auth.challenge,
            answered1->SendResponse_1,
        ),
        !(end1 is Accept) ==> end1 matches ActionView::Fail(ErrorView::Rejected(_)),
        !(end2 is Accept) ==> end2 matches ActionView::Fail(ErrorView::Rejected(_)),
        !opens_under(key1, answered2->SendResponse_1) ==> end1 == ActionView::Fail(
            ErrorView::Rejected("Cannot verify challenge"@),
        ),
        !opens_under(key2, answered1->SendResponse_1) ==> end2 == ActionView::Fail(
            ErrorView::Rejected("Cannot verify challenge"@),
        ),
{
    request_is_accepted_iff_peers_match(side1, request1, start1.auth, start2.auth);
    request_is_accepted_iff_peers_match(side2, request2, start2.auth, start1.auth);
}

/// Two handshakes whose messages all arrive end alike: both sides accept where they match, and both
/// are rejected where they do not, in the protocol, in a role, in whether they have a key or in the
/// key itself. Where all but the key matches, this is said as long as neither answer opens under
/// the key of the other side to the very text that is expected there.
pub proof fn handshakes_end_alike(
    protocol1: u32,
    protocol2: u32,
    role1: Seq<char>,
    role2: Seq<char>,
    peer1: Seq<char>,
    peer2: Seq<char>,
    key1: Option<Seq<u8>>,
    key2: Option<Seq<u8>>,
    request1: RequestView,
    request2: RequestView,
    start1: HandshakeState,
    start2: HandshakeState,
    sent1: ActionView,
    sent2: ActionView,
    answered1: ActionView,
    answered2: ActionView,
    replied1: ActionView,
    replied2: ActionView,
    end1: ActionView,
    end2: ActionView,
)
    requires
        protocol1 == protocol2 && role1 == peer2 && role2 == peer1 && key1 is Some && key2 is Some
            && key1 != key2 ==> {
            &&& !proves(key1->0, role2, start1.auth.challenge, answered2->SendResponse_1)
            &&& !proves(key2->0, role1, start2.auth.challenge, answered1->SendResponse_1)
        },
        can_answer(key1, role1, start2.auth.challenge),
        can_answer(key2, role2, start1.auth.challenge),
        requests(AuthState::fresh(protocol1, role1, peer1, key1), request1, start1.auth),
        requests(AuthState::fresh(protocol2, role2, peer2, key2), request2, start2.auth),
        runs(start1, sent1, request2, answered1, replied1, answered2->SendResponse_1, end1),
        runs(start2, sent2, request1, answered2, replied2, answered1->SendResponse_1, end2),
    ensures
        if protocol1 == protocol2 && role1 == peer2 && role2 == peer1 && key1 == key2 {
            end1 matches ActionView::Accept(sealer1, opener1) && {
                &&& end2 matches ActionView::Accept(sealer2, opener2)
                &&& sealer1 == opener2
                &&& sealer2 == opener1
                &&& sealer1 is Some <==> key1 is Some
                &&& sealer2 is Some <==> key1 is Some
            }
        } else {
            &&& end1 matches ActionView::Fail(ErrorView::Rejected(_))
            &&& end2 matches ActionView::Fail(ErrorView::Rejected(_))
        },
{
    let side1 = AuthState::fresh(protocol1, role1, peer1, key1);
    let side2 = AuthState::fresh(protocol2, role2, peer2, key2);
    if sides_match(side1, side2) && key1 != key2 {
        matching_handshakes_accept_iff_answers_prove_the_key(
            side1,
            side2,
            key1->0,
            key2->0,
            request1,
            request2,
            start1,
            start2,
            sent1,
            sent2,
            answered1,
            answered2,
            replied1,
            replied2,
            end1,
            end2,
        );
    } else if sides_match(side1, side2) {
        matching_handshakes_accept(
            protocol1,
            role1,
            role2,
            key1,
            request1,
            request2,
            start1,
            start2,
            sent1,
            sent2,
            answered1,
            answered2,
            replied1,
            replied2,
            end1,
            end2,
        );
    } else {
        differing_handshakes_are_rejected(
            side1,
            side2,
            request1,
            request2,
            start1,
            start2,
            sent1,
            sent2,
            answered1,
            answered2,
            replied1,
            replied2,
            end1,
            end2,
        );
    }
}

/// One side of an authentication, as it was started: its protocol, its role, the role of its peer
/// and its key.
pub struct Side {
    pub protocol: u32,
    pub my_role: &'static str,
    pub peer_role: &'static str,
    pub key: Option<Arc<SecretKey>>,
}

/// Whether `first` is the handshake of `side` before anything has happened, and `request` is what
/// it sends.
pub open spec fn starts(side: Side, first: Handshake, request: AuthenticationRequest) -> bool {
    call_ensures(
        do_authentication,
        (side.protocol, side.my_role, side.peer_role, side.key),
        Ok::<(Handshake, AuthenticationRequest), DsError>((first, request)),
    )
}

/// Whether `action` follows `event` in the handshake `from`.
pub open spec fn follows(from: Handshake, event: HandshakeEvent, action: HandshakeAction) -> bool {
    call_ensures(Handshake::advance, (from, event), action)
}

/// Whether `waiting` is the handshake of `side` that has sent `request` and waits for that of the
/// peer.
pub open spec fn waits_for_request(
    side: Side,
    request: AuthenticationRequest,
    waiting: Handshake,
) -> bool {
    exists|first: Handshake|
        #[trigger] starts(side, first, request) && follows(
            first,
            HandshakeEvent::Send(SendOutcome::Sent),
            HandshakeAction::ReceiveRequest(waiting),
        )
}

/// Whether `next` is the handshake of `side` that has got the request `peer` and sends `answer`.
pub open spec fn sends_answer(
    side: Side,
    request: AuthenticationRequest,
    peer: AuthenticationRequest,
    answer: AuthenticationResponse,
    next: Handshake,
) -> bool {
    exists|waiting: Handshake|
        #[trigger] waits_for_request(side, request, waiting) && follows(
            waiting,
            HandshakeEvent::Request(Received::Message(peer)),
            HandshakeAction::SendResponse(next, answer),
        )
}

/// Whether `last` is the handshake of `side` that has sent `answer` and waits for that of the peer.
pub open spec fn waits_for_answer(
    side: Side,
    request: AuthenticationRequest,
    peer: AuthenticationRequest,
    answer: AuthenticationResponse,
    last: Handshake,
) -> bool {
    exists|next: Handshake|
        #[trigger] sends_answer(side, request, peer, answer, next) && follows(
            next,
            HandshakeEvent::Send(SendOutcome::Sent),
            HandshakeAction::ReceiveResponse(last),
        )
}

/// Whether an action is to fail with an error that tells `text`.
pub open spec fn fails_with(action: HandshakeAction, text: Seq<char>) -> bool {
    action matches HandshakeAction::Fail(DsError::GenericError(told)) && told@ == text
}

/// What a handshake knows that waits for a request.
proof fn lemma_waits_for_request(side: Side, request: AuthenticationRequest, waiting: Handshake)
    requires
        waits_for_request(side, request, waiting),
    ensures
        waiting@.phase == HandshakePhase::AwaitingRequest,
        requests(
            AuthState::fresh(
                side.protocol,
                side.my_role@,
                side.peer_role@,
                key_view(side.key),
            ),
            request@,
            waiting@.auth,
        ),
{
    let first = choose|first: Handshake|
        #[trigger] starts(side, first, request) && follows(
            first,
            HandshakeEvent::Send(SendOutcome::Sent),
            HandshakeAction::ReceiveRequest(waiting),
        );
    let started = Ok::<(Handshake, AuthenticationRequest), DsError>((first, request));
    let event = HandshakeEvent::Send(SendOutcome::Sent);
    let action = HandshakeAction::ReceiveRequest(waiting);
    assert(advances(first@, event@, action@));
}

/// What a handshake knows that sends an answer.
proof fn lemma_sends_answer(
    side: Side,
    request: AuthenticationRequest,
    peer: AuthenticationRequest,
    answer: AuthenticationResponse,
    next: Handshake,
)
    requires
        sends_answer(side, request, peer, answer, next),
    ensures
        next@.phase == HandshakePhase::SendingResponse,
        next@.auth.key == key_view(side.key),
        next@.auth.peer_role == side.peer_role@,
        request@.mode matches ModeView::Encryption(sent) ==> next@.auth.challenge == sent,
        is_reason(side.protocol, side.peer_role@, side.key is Some, peer, next@.auth.error),
        answer matches AuthenticationResponse::Error(told) ==> next@.auth.error == Some(
            told.message@,
        ),
        !(answer is Error) ==> next@.auth.error is None,
        next@.auth.error is None && side.key is None ==> answer is NoAuth && next@.auth.sealer
            is None,
        next@.auth.error is None ==> (key_view(side.key) matches Some(key) ==> {
            &&& answer matches AuthenticationResponse::Encryption(sealed)
            &&& peer.mode matches AuthenticationMode::Encryption(sent)
            &&& key.len() == 32
            &&& is_answer(
                key,
                side.my_role@,
                sent.challenge@,
                sealed.nonce@,
                sealed.response@,
            )
            &&& next@.auth.sealer == one_chunk(key, sealed.nonce@, sealed.response@)
        }),
{
    let waiting = choose|waiting: Handshake|
        #[trigger] waits_for_request(side, request, waiting) && follows(
            waiting,
            HandshakeEvent::Request(Received::Message(peer)),
            HandshakeAction::SendResponse(next, answer),
        );
    lemma_waits_for_request(side, request, waiting);
    let event = HandshakeEvent::Request(Received::Message(peer));
    let action = HandshakeAction::SendResponse(next, answer);
    assert(advances(waiting@, event@, action@));
    lemma_reason(waiting@.auth, peer);
    lemma_answered(
        waiting@.auth,
        peer@,
        Ok::<ResponseView, ErrorView>(answer@),
        next@.auth,
    );
}

/// What a handshake knows that waits for an answer.
proof fn lemma_waits_for_answer(
    side: Side,
    request: AuthenticationRequest,
    peer: AuthenticationRequest,
    answer: AuthenticationResponse,
    last: Handshake,
)
    requires
        waits_for_answer(side, request, peer, answer, last),
    ensures
        last@.phase == HandshakePhase::AwaitingResponse,
        exists|next: Handshake|
            #[trigger] sends_answer(side, request, peer, answer, next) && next@.auth
                == last@.auth,
{
    let next = choose|next: Handshake|
        #[trigger] sends_answer(side, request, peer, answer, next) && follows(
            next,
            HandshakeEvent::Send(SendOutcome::Sent),
            HandshakeAction::ReceiveResponse(last),
        );
    lemma_sends_answer(side, request, peer, answer, next);
    let event = HandshakeEvent::Send(SendOutcome::Sent);
    let action = HandshakeAction::ReceiveResponse(last);
    assert(advances(next@, event@, action@));
}

/// An authentication always starts, with a request that tells the protocol and the role of the side
/// and carries a challenge of sixteen bytes exactly where there is a key.
pub proof fn handshake_starts_with_a_request(
    side: Side,
    r: Result<(Handshake, AuthenticationRequest), DsError>,
)
    requires
        call_ensures(
            do_authentication,
            (side.protocol, side.my_role, side.peer_role, side.key),
            r,
        ),
    ensures
        r matches Ok((_, request)) && {
            &&& request.protocol == side.protocol
            &&& request.role@ == side.my_role@
            &&& match request.mode {
                AuthenticationMode::Encryption(sent) => side.key is Some && sent.challenge@.len()
                    == 16,
                AuthenticationMode::NoAuth => side.key is None,
            }
        },
{
    let request = (r->Ok_0).1;
    let handshake = (r->Ok_0).0;
    assert(requests(
        AuthState::fresh(side.protocol, side.my_role@, side.peer_role@, key_view(side.key)),
        request@,
        handshake@.auth,
    ));
}

/// A request that does not match is answered with the reason, and one that matches with the role
/// and the challenge, sealed under the key, or with nothing where there is no key. Where the answer
/// cannot be sealed, the handshake fails.
pub proof fn handshake_answers_the_request(
    side: Side,
    request: AuthenticationRequest,
    waiting: Handshake,
    peer: AuthenticationRequest,
    action: HandshakeAction,
)
    requires
        waits_for_request(side, request, waiting),
        follows(waiting, HandshakeEvent::Request(Received::Message(peer)), action),
    ensures
        ({
            let reason = match action {
                HandshakeAction::SendResponse(_, AuthenticationResponse::Error(told)) => Some(
                    told.message@,
                ),
                _ => None,
            };
            &&& is_reason(side.protocol, side.peer_role@, side.key is Some, peer, reason)
            &&& reason is None && side.key is None ==> {
                action matches HandshakeAction::SendResponse(_, AuthenticationResponse::NoAuth)
            }
            &&& reason is None ==> (key_view(side.key) matches Some(key) ==> {
                &&& peer.mode matches AuthenticationMode::Encryption(sent)
                &&& if key.len() != 32 {
                    fails_with(action, "Creating sealer failed"@)
                } else if encode_utf8(side.my_role@).len() + 16 > 0xffff_fffe * 64 {
                    fails_with(action, "Cannot seal challenge"@)
                } else {
                    action matches HandshakeAction::SendResponse(
                        _,
                        AuthenticationResponse::Encryption(answer),
                    ) && is_answer(
                        key,
                        side.my_role@,
                        sent.challenge@,
                        answer.nonce@,
                        answer.response@,
                    )
                }
            })
        }),
{
    lemma_waits_for_request(side, request, waiting);
    let event = HandshakeEvent::Request(Received::Message(peer));
    assert(advances(waiting@, event@, action@));
    lemma_reason(waiting@.auth, peer);
    match action {
        HandshakeAction::SendResponse(next, answer) => {
            lemma_answered(
                waiting@.auth,
                peer@,
                Ok::<ResponseView, ErrorView>(answer@),
                next@.auth,
            );
        },
        HandshakeAction::Fail(e) => {
            lemma_answered(
                waiting@.auth,
                peer@,
                Err::<ResponseView, ErrorView>(e@),
                waiting@.auth,
            );
        },
        _ => {},
    }
}

/// A side that has answered its peer accepts it on the answer to its own challenge, sealed under
/// its own key by a peer in the role that it expects, and goes on with the two streams of the
/// answers.
/// It rejects its peer on anything else, and always where its own answer was a refusal.
pub proof fn handshake_ends_by_the_answer(
    side: Side,
    request: AuthenticationRequest,
    peer: AuthenticationRequest,
    answer: AuthenticationResponse,
    last: Handshake,
    response: AuthenticationResponse,
    end: HandshakeAction,
)
    requires
        waits_for_answer(side, request, peer, answer, last),
        follows(last, HandshakeEvent::Response(Received::Message(response)), end),
    ensures
        is_end(
            match answer {
                AuthenticationResponse::Error(told) => Some(told.message@),
                _ => None,
            },
            key_view(side.key),
            side.peer_role@,
            match request.mode {
                AuthenticationMode::Encryption(sent) => sent.challenge@,
                AuthenticationMode::NoAuth => Seq::empty(),
            },
            response,
            match end {
                HandshakeAction::Accept(_, opener) => Ok(opener_view(opener)),
                HandshakeAction::Fail(e) => Err(e->AuthenticationRejected_0@),
                _ => arbitrary(),
            },
        ),
        end matches HandshakeAction::Fail(e) ==> e is AuthenticationRejected,
        end is Fail || end is Accept,
        end matches HandshakeAction::Accept(sealer, _) ==> sealer_view(sealer) == match answer {
            AuthenticationResponse::Encryption(sealed) => one_chunk(
                key_view(side.key)->0,
                sealed.nonce@,
                sealed.response@,
            ),
            _ => None,
        },
{
    lemma_waits_for_answer(side, request, peer, answer, last);
    let next = choose|next: Handshake|
        #[trigger] sends_answer(side, request, peer, answer, next) && next@.auth == last@.auth;
    lemma_sends_answer(side, request, peer, answer, next);
    let event = HandshakeEvent::Response(Received::Message(response));
    assert(advances(last@, event@, end@));
    lemma_end(last@.auth, response);
    lemma_request_of(side, request, peer, answer, next);
}

/// The challenge that a request carries is there exactly where there is a key.
proof fn lemma_request_of(
    side: Side,
    request: AuthenticationRequest,
    peer: AuthenticationRequest,
    answer: AuthenticationResponse,
    next: Handshake,
)
    requires
        sends_answer(side, request, peer, answer, next),
    ensures
        request.mode is Encryption <==> side.key is Some,
{
    let waiting = choose|waiting: Handshake|
        #[trigger] waits_for_request(side, request, waiting) && follows(
            waiting,
            HandshakeEvent::Request(Received::Message(peer)),
            HandshakeAction::SendResponse(next, answer),
        );
    lemma_waits_for_request(side, request, waiting);
    assert(request@.mode is Encryption <==> key_view(side.key) is Some);
}

/// A message that is not sent or does not arrive within fifteen seconds, or before the other side
/// closes the connection, ends the handshake with an error that tells which it was.
pub proof fn handshake_tells_what_was_missing(
    side: Side,
    request: AuthenticationRequest,
    peer: AuthenticationRequest,
    answer: AuthenticationResponse,
    first: Handshake,
    waiting: Handshake,
    next: Handshake,
    last: Handshake,
    sent: SendOutcome,
    on_request: HandshakeAction,
    request_late: HandshakeAction,
    request_closed: HandshakeAction,
    on_answer: HandshakeAction,
    answer_late: HandshakeAction,
    answer_closed: HandshakeAction,
)
    requires
        starts(side, first, request),
        waits_for_request(side, request, waiting),
        sends_answer(side, request, peer, answer, next),
        waits_for_answer(side, request, peer, answer, last),
        follows(first, HandshakeEvent::Send(sent), on_request),
        follows(waiting, HandshakeEvent::Request(Received::TimedOut), request_late),
        follows(waiting, HandshakeEvent::Request(Received::Closed), request_closed),
        follows(next, HandshakeEvent::Send(sent), on_answer),
        follows(last, HandshakeEvent::Response(Received::TimedOut), answer_late),
        follows(last, HandshakeEvent::Response(Received::Closed), answer_closed),
    ensures
        sent == SendOutcome::Sent ==> on_request is ReceiveRequest && on_answer is ReceiveResponse,
        sent == SendOutcome::TimedOut ==> fails_with(on_request, "Sending authentication timeout"@),
        sent == SendOutcome::TimedOut ==> fails_with(
            on_answer,
            "Sending authentication timeouted"@,
        ),
        sent == SendOutcome::Failed ==> fails_with(on_request, "Sending authentication failed"@),
        sent == SendOutcome::Failed ==> fails_with(on_answer, "Sending authentication failed"@),
        fails_with(request_late, "Authentication message did not arrived"@),
        fails_with(answer_late, "Authentication message did not arrived"@),
        fails_with(
            request_closed,
            "The remote side closed connection without authentication message"@,
        ),
        fails_with(
            answer_closed,
            "The remote side closed connection without authentication message"@,
        ),
        AUTH_TIMEOUT_SECS == 15,
{
    lemma_waits_for_request(side, request, waiting);
    lemma_sends_answer(side, request, peer, answer, next);
    lemma_waits_for_answer(side, request, peer, answer, last);
    let started = Ok::<(Handshake, AuthenticationRequest), DsError>((first, request));
    let sending = HandshakeEvent::Send(sent);
    let late = HandshakeEvent::Request(Received::TimedOut);
    let closed = HandshakeEvent::Request(Received::Closed);
    let unanswered = HandshakeEvent::Response(Received::TimedOut);
    let left = HandshakeEvent::Response(Received::Closed);
    assert(advances(first@, sending@, on_request@));
    assert(advances(waiting@, late@, request_late@));
    assert(advances(waiting@, closed@, request_closed@));
    assert(advances(next@, sending@, on_answer@));
    assert(advances(last@, unanswered@, answer_late@));
    assert(advances(last@, left@, answer_closed@));
}

/// A handshake goes from sending its request to waiting for that of the peer, and from sending its
/// answer to waiting for that of the peer.
pub proof fn handshake_goes_through_its_phases(
    side: Side,
    request: AuthenticationRequest,
    peer: AuthenticationRequest,
    answer: AuthenticationResponse,
    first: Handshake,
    waiting: Handshake,
    next: Handshake,
    last: Handshake,
    phases: (HandshakePhase, HandshakePhase, HandshakePhase, HandshakePhase),
)
    requires
        starts(side, first, request),
        waits_for_request(side, request, waiting),
        sends_answer(side, request, peer, answer, next),
        waits_for_answer(side, request, peer, answer, last),
        call_ensures(Handshake::phase, (&first,), phases.0),
        call_ensures(Handshake::phase, (&waiting,), phases.1),
        call_ensures(Handshake::phase, (&next,), phases.2),
        call_ensures(Handshake::phase, (&last,), phases.3),
    ensures
        phases.0 == HandshakePhase::SendingRequest,
        phases.1 == HandshakePhase::AwaitingRequest,
        phases.2 == HandshakePhase::SendingResponse,
        phases.3 == HandshakePhase::AwaitingResponse,
{
    let started = Ok::<(Handshake, AuthenticationRequest), DsError>((first, request));
    lemma_waits_for_request(side, request, waiting);
    lemma_sends_answer(side, request, peer, answer, next);
    lemma_waits_for_answer(side, request, peer, answer, last);
}

/// Two sides that speak the same protocol, expect the role of each other and have the same key or
/// none accept each other on the answers that they give, and what one seals from then on the other
/// is ready to open.
pub proof fn matching_sides_accept_each_other(
    side1: Side,
    side2: Side,
    request1: AuthenticationRequest,
    request2: AuthenticationRequest,
    answer1: AuthenticationResponse,
    answer2: AuthenticationResponse,
    last1: Handshake,
    last2: Handshake,
    end1: HandshakeAction,
    end2: HandshakeAction,
)
    requires
        side1.protocol == side2.protocol,
        side1.my_role@ == side2.peer_role@,
        side2.my_role@ == side1.peer_role@,
        key_view(side1.key) == key_view(side2.key),
        waits_for_answer(side1, request1, request2, answer1, last1),
        waits_for_answer(side2, request2, request1, answer2, last2),
        follows(last1, HandshakeEvent::Response(Received::Message(answer2)), end1),
        follows(last2, HandshakeEvent::Response(Received::Message(answer1)), end2),
    ensures
        end1 matches HandshakeAction::Accept(sealer1, opener1) && {
            &&& end2 matches HandshakeAction::Accept(sealer2, opener2)
            &&& sealer_view(sealer1) == opener_view(opener2)
            &&& sealer_view(sealer2) == opener_view(opener1)
            &&& sealer1 is Some <==> side1.key is Some
            &&& sealer2 is Some <==> side1.key is Some
        },
{
    lemma_waits_for_answer(side1, request1, request2, answer1, last1);
    lemma_waits_for_answer(side2, request2, request1, answer2, last2);
    let next1 = choose|next: Handshake|
        #[trigger] sends_answer(side1, request1, request2, answer1, next) && next@.auth
            == last1@.auth;
    let next2 = choose|next: Handshake|
        #[trigger] sends_answer(side2, request2, request1, answer2, next) && next@.auth
            == last2@.auth;
    lemma_sends_answer(side1, request1, request2, answer1, next1);
    lemma_sends_answer(side2, request2, request1, answer2, next2);
    lemma_request_of(side1, request1, request2, answer1, next1);
    lemma_request_of(side2, request2, request1, answer2, next2);
    lemma_request_is_own(side1, request1, request2, answer1, next1);
    lemma_request_is_own(side2, request2, request1, answer2, next2);
    handshake_ends_by_the_answer(side1, request1, request2, answer1, last1, answer2, end1);
    handshake_ends_by_the_answer(side2, request2, request1, answer2, last2, answer1, end2);
}

/// A request tells the protocol and the role of its sender, and a challenge in it has sixteen
/// bytes.
proof fn lemma_request_is_own(
    side: Side,
    request: AuthenticationRequest,
    peer: AuthenticationRequest,
    answer: AuthenticationResponse,
    next: Handshake,
)
    requires
        sends_answer(side, request, peer, answer, next),
    ensures
        request.protocol == side.protocol,
        request.role@ == side.my_role@,
        request.mode matches AuthenticationMode::Encryption(sent) ==> sent.challenge@.len() == 16,
{
    let waiting = choose|waiting: Handshake|
        #[trigger] waits_for_request(side, request, waiting) && follows(
            waiting,
            HandshakeEvent::Request(Received::Message(peer)),
            HandshakeAction::SendResponse(next, answer),
        );
    lemma_waits_for_request(side, request, waiting);
    if let AuthenticationMode::Encryption(sent) = request.mode {
        assert(request@.mode == ModeView::Encryption(sent.challenge@));
    }
}

} // verus!
