//! What holds of an authentication as a whole.

use crate::auth::{
    accepted_stream, answer_text, answers, challenge_answer, finish_failure, opener_view, refusal,
    requests, responds, sealer_view, AuthState, Authenticator,
};
use crate::error::{DsError, ErrorView};
use crate::messages::{
    AuthenticationMode, AuthenticationRequest, AuthenticationResponse, ModeView, RequestView,
    ResponseView,
};
use crate::stream::{
    opened_chunk, sealed_chunk, secret_key_bytes, ChunkTag, StreamState, MAX_CHUNK_PLAINTEXT,
    STREAM_KEY_LENGTH,
};
use crate::text::decimal;
use orion::aead::streaming::{StreamOpener, StreamSealer};
use orion::kdf::SecretKey;
use std::sync::Arc;
use vstd::prelude::*;
use vstd::utf8::{encode_utf8, encode_utf8_decode_utf8};

verus! {

/// Answers in different roles, or to different challenges of one length, are different.
proof fn lemma_answer_text_injective(
    role1: Seq<char>,
    challenge1: Seq<u8>,
    role2: Seq<char>,
    challenge2: Seq<u8>,
)
    requires
        challenge1.len() == challenge2.len(),
        answer_text(role1, challenge1) == answer_text(role2, challenge2),
    ensures
        role1 == role2,
        challenge1 == challenge2,
{
    let text = answer_text(role1, challenge1);
    let n = text.len() - challenge1.len();
    assert(encode_utf8(role1) =~= text.take(n));
    assert(encode_utf8(role2) =~= text.take(n));
    assert(challenge1 =~= text.skip(n));
    assert(challenge2 =~= text.skip(n));
    encode_utf8_decode_utf8(role1);
    encode_utf8_decode_utf8(role2);
}

/// A request is accepted exactly where the peers match: they speak the same protocol, the sender
/// has the role that the receiver expects, and either both have a key or neither.
pub proof fn request_is_accepted_iff_peers_match(
    sender: AuthState,
    request: RequestView,
    sender_after: AuthState,
    receiver: AuthState,
)
    requires
        requests(sender, request, sender_after),
    ensures
        refusal(receiver, request) is None <==> {
            &&& sender.protocol == receiver.protocol
            &&& sender.my_role == receiver.peer_role
            &&& sender.key is Some <==> receiver.key is Some
        },
{
}

/// Two fresh peers that match and share a key of the right length, or have none, answer and accept
/// each other, and what one seals from then on the other is ready to open.
pub proof fn matching_peers_accept_each_other(
    protocol: u32,
    role1: Seq<char>,
    role2: Seq<char>,
    key: Option<Seq<u8>>,
    request1: RequestView,
    request2: RequestView,
    requested1: AuthState,
    requested2: AuthState,
    response1: Result<ResponseView, ErrorView>,
    response2: Result<ResponseView, ErrorView>,
    responded1: AuthState,
    responded2: AuthState,
)
    requires
        key matches Some(bytes) ==> bytes.len() == STREAM_KEY_LENGTH,
        key is Some ==> answer_text(role1, requested2.challenge).len() <= MAX_CHUNK_PLAINTEXT,
        key is Some ==> answer_text(role2, requested1.challenge).len() <= MAX_CHUNK_PLAINTEXT,
        requests(AuthState::fresh(protocol, role1, role2, key), request1, requested1),
        requests(AuthState::fresh(protocol, role2, role1, key), request2, requested2),
        responds(requested1, request2, response1, responded1),
        responds(requested2, request1, response2, responded2),
    ensures
        response1 is Ok && response2 is Ok,
        finish_failure(responded1, response2->Ok_0) is None,
        finish_failure(responded2, response1->Ok_0) is None,
        responded1.sealer is Some <==> key is Some,
        responded2.sealer is Some <==> key is Some,
        accepted_stream(responded2, response1->Ok_0) == responded1.sealer,
        accepted_stream(responded1, response2->Ok_0) == responded2.sealer,
{
}

/// An answer is accepted exactly by the side that has sent the challenge and expects the role that
/// the answer was given in, and that has not refused its peer. So neither an answer to another
/// challenge nor one in another role is of use.
pub proof fn answer_is_accepted_iff_it_was_asked_for(
    state: AuthState,
    key: Seq<u8>,
    role: Seq<char>,
    challenge: Seq<u8>,
    nonce: Seq<u8>,
    response: Seq<u8>,
)
    requires
        state.key == Some(key),
        key.len() == STREAM_KEY_LENGTH,
        state.challenge.len() == challenge.len(),
        answers(key, role, challenge, nonce, response),
    ensures
        finish_failure(state, ResponseView::Encryption { nonce, response }) is None <==> {
            &&& state.error is None
            &&& role == state.peer_role
            &&& challenge == state.challenge
        },
{
    if answer_text(role, challenge) == answer_text(state.peer_role, state.challenge) {
        lemma_answer_text_injective(role, challenge, state.peer_role, state.challenge);
    }
}

/// A side whose own request is sent back to it, under whatever role, does not accept its own
/// answer, as long as it expects a role other than its own.
pub proof fn reflected_request_is_not_accepted(
    before: AuthState,
    request: RequestView,
    state: AuthState,
    role: Seq<char>,
    response: ResponseView,
    after: AuthState,
)
    requires
        before.key is Some,
        before.my_role != before.peer_role,
        requests(before, request, state),
        responds(
            state,
            (RequestView { role, ..request }),
            Ok::<ResponseView, ErrorView>(response),
            after,
        ),
    ensures
        finish_failure(after, response) is Some,
{
    if let ResponseView::Encryption { nonce, response: sealed } = response {
        answer_is_accepted_iff_it_was_asked_for(
            after,
            state.key->0,
            state.my_role,
            state.challenge,
            nonce,
            sealed,
        );
    }
}

/// A refused request is answered with the reason, and ends the authentication on both sides: the
/// refusing side accepts no answer any more, and no side accepts a refusal as an answer.
pub proof fn refusal_ends_both_sides(
    before: AuthState,
    request: RequestView,
    response: Result<ResponseView, ErrorView>,
    after: AuthState,
    answer: ResponseView,
    peer: AuthState,
)
    requires
        responds(before, request, response, after),
        refusal(before, request) is Some,
    ensures
        response == Ok::<ResponseView, ErrorView>(
            ResponseView::Error(refusal(before, request)->0),
        ),
        finish_failure(after, answer) is Some,
        finish_failure(peer, response->Ok_0) is Some,
{
}

/// A side that has refused its peer once never accepts it, whatever it sends or answers after
/// that.
pub proof fn refusal_is_final(
    before: AuthState,
    request: RequestView,
    response: Result<ResponseView, ErrorView>,
    after: AuthState,
    answer: ResponseView,
)
    requires
        before.error is Some,
        requests(before, request, after) || responds(before, request, response, after),
    ensures
        after.error is Some,
        finish_failure(after, answer) is Some,
{
}

/// A side with a key accepts a peer only on an answer that opens, under that key, to the expected
/// role and the challenge that it has sent, and then goes on receiving through the stream of that
/// answer. A side without a key accepts only an answer without one.
pub proof fn acceptance_is_never_downgraded(state: AuthState, response: ResponseView)
    requires
        finish_failure(state, response) is None,
    ensures
        match state.key {
            Some(key) => {
                &&& response matches ResponseView::Encryption { nonce, response: sealed }
                &&& StreamState::fresh(key, nonce).open(sealed) == Some(
                    (answer_text(state.peer_role, state.challenge), ChunkTag::Message.code()),
                )
                &&& accepted_stream(state, response) == Some(
                    StreamState::fresh(key, nonce).after(sealed),
                )
            },
            None => response == ResponseView::NoAuth && accepted_stream(state, response) is None,
        },
{
}

/// The reason to refuse a peer of another protocol.
pub open spec fn other_protocol(expected: u32, got: u32) -> Seq<char> {
    "Invalid version of protocol, expected "@ + decimal(expected as nat) + ", got "@ + decimal(
        got as nat,
    )
}

/// The reason to refuse a peer in another role.
pub open spec fn other_role(expected: Seq<char>, got: Seq<char>) -> Seq<char> {
    "Expected peer role "@ + expected + ", got "@ + got
}

/// Whether `reason` is why a side that speaks `protocol`, expects the role `role` and has a key or
/// not refuses a request: it says what does not match, of the protocol, the role and the key, in
/// this order, and the length of a challenge that is not of sixteen bytes last.
pub open spec fn is_reason(
    protocol: u32,
    role: Seq<char>,
    keyed: bool,
    request: AuthenticationRequest,
    reason: Option<Seq<char>>,
) -> bool {
    let same = request.protocol == protocol && request.role@ == role;
    &&& request.protocol != protocol ==> reason == Some(other_protocol(protocol, request.protocol))
    &&& request.protocol == protocol && request.role@ != role ==> reason == Some(
        other_role(role, request.role@),
    )
    &&& request.mode matches AuthenticationMode::Encryption(sent) ==> {
        &&& same && !keyed ==> reason == Some("Peer requests authentication"@)
        &&& same && keyed && sent.challenge@.len() != 16 ==> reason == Some(
            "Invalid length of challenge ("@ + decimal(sent.challenge@.len()) + ")"@,
        )
        &&& same && keyed && sent.challenge@.len() == 16 ==> reason is None
    }
    &&& request.mode is NoAuth ==> {
        &&& same && keyed ==> reason == Some("Peer does not support authentication"@)
        &&& same && !keyed ==> reason is None
    }
}

/// Whether `nonce` and `sealed` answer `challenge` in the role `role` under `key`: the nonce has
/// twenty-four bytes, and the first chunk of the stream opens to the role and the challenge and the
/// tag of a message.
pub open spec fn is_answer(
    key: Seq<u8>,
    role: Seq<char>,
    challenge: Seq<u8>,
    nonce: Seq<u8>,
    sealed: Seq<u8>,
) -> bool {
    let text = encode_utf8(role) + challenge;
    &&& nonce.len() == 24
    &&& sealed == sealed_chunk(key, nonce, Seq::empty(), text, 0)
    &&& opened_chunk(key, nonce, Seq::empty(), sealed) == Some((text, 0u8))
}

/// A stream that a single chunk has passed.
pub open spec fn one_chunk(key: Seq<u8>, nonce: Seq<u8>, chunk: Seq<u8>) -> Option<StreamState> {
    Some(StreamState { key, nonce, chunks: seq![chunk] })
}

/// Why a request is refused, if it is.
pub(crate) proof fn lemma_reason(state: AuthState, request: AuthenticationRequest)
    ensures
        is_reason(
            state.protocol,
            state.peer_role,
            state.key is Some,
            request,
            refusal(state, request@),
        ),
{
}

/// A peer is told why it is refused: that its protocol, its role or its key does not match, or that
/// its challenge is not of sixteen bytes. One that matches is not refused.
pub proof fn refusal_tells_what_does_not_match(
    side: Authenticator,
    request: AuthenticationRequest,
    r: Option<String>,
)
    requires
        call_ensures(Authenticator::find_refusal, (&side, &request), r),
    ensures
        is_reason(
            side@.protocol,
            side@.peer_role,
            side@.key is Some,
            request,
            match r {
                Some(text) => Some(text@),
                None => None,
            },
        ),
{
    lemma_reason(side@, request);
}

/// A request tells the protocol and the role of its sender, and carries a challenge of sixteen
/// bytes, which the sender keeps, exactly where there is a key. Nothing else changes.
pub proof fn request_tells_who_sends_it(
    before: Authenticator,
    after: Authenticator,
    r: Result<AuthenticationRequest, DsError>,
)
    requires
        exists|side: &mut Authenticator|
            {
                &&& #[trigger] call_ensures(Authenticator::make_auth_request, (side,), r)
                &&& *side == before
                &&& *final(side) == after
            },
    ensures
        r matches Ok(request) && {
            &&& request.protocol == before@.protocol
            &&& request.role@ == before@.my_role
            &&& before@.key is Some ==> {
                &&& request.mode matches AuthenticationMode::Encryption(sent)
                &&& sent.challenge@.len() == 16
                &&& after@.challenge == sent.challenge@
            }
            &&& before@.key is None ==> request.mode is NoAuth && after@.challenge
                == before@.challenge
        },
        after@.protocol == before@.protocol,
        after@.my_role == before@.my_role,
        after@.peer_role == before@.peer_role,
        after@.key == before@.key,
        after@.sealer == before@.sealer,
        after@.error == before@.error,
{
    let request = r->Ok_0;
    assert(requests(before@, request@, after@));
    if before@.key is Some {
        assert(request@.mode == ModeView::Encryption(after@.challenge));
    }
}

/// A refused request is answered with the reason, which is kept. A request that matches is answered
/// by the role and the challenge, sealed under the key into the first chunk of a stream that is
/// kept, or by nothing where there is no key. A key that is not of thirty-two bytes, or a text that
/// no chunk can carry, is an error and changes nothing.
pub proof fn answer_seals_role_and_challenge(
    before: Authenticator,
    after: Authenticator,
    request: AuthenticationRequest,
    r: Result<AuthenticationResponse, DsError>,
)
    requires
        exists|side: &mut Authenticator|
            {
                &&& #[trigger] call_ensures(Authenticator::make_auth_response, (side, request), r)
                &&& *side == before
                &&& *final(side) == after
            },
    ensures
        ({
            let reason = match r {
                Ok(AuthenticationResponse::Error(told)) => Some(told.message@),
                _ => None,
            };
            &&& is_reason(
                before@.protocol,
                before@.peer_role,
                before@.key is Some,
                request,
                reason,
            )
            &&& after@.error == (if reason is Some {
                reason
            } else {
                before@.error
            })
            &&& reason is Some ==> after@.sealer == before@.sealer
            &&& reason is None && before@.key is None ==> {
                &&& r matches Ok(AuthenticationResponse::NoAuth)
                &&& after@.sealer == before@.sealer
            }
            &&& reason is None && before@.key is Some ==> {
                let key = before@.key->0;
                &&& request.mode matches AuthenticationMode::Encryption(sent)
                &&& if key.len() != 32 {
                    &&& r matches Err(DsError::GenericError(text)) && text@
                        == "Creating sealer failed"@
                    &&& after@.sealer == before@.sealer
                } else if encode_utf8(before@.my_role).len() + 16 > 0xffff_fffe * 64 {
                    &&& r matches Err(DsError::GenericError(text)) && text@
                        == "Cannot seal challenge"@
                    &&& after@.sealer == before@.sealer
                } else {
                    &&& r matches Ok(AuthenticationResponse::Encryption(answer))
                    &&& is_answer(
                        key,
                        before@.my_role,
                        sent.challenge@,
                        answer.nonce@,
                        answer.response@,
                    )
                    &&& after@.sealer == one_chunk(key, answer.nonce@, answer.response@)
                }
            }
        }),
        after@.protocol == before@.protocol,
        after@.my_role == before@.my_role,
        after@.peer_role == before@.peer_role,
        after@.key == before@.key,
        after@.challenge == before@.challenge,
{
    lemma_reason(before@, request);
    let view = match r {
        Ok(response) => Ok::<ResponseView, ErrorView>(response@),
        Err(e) => Err(e@),
    };
    assert(responds(before@, request@, view, after@));
    lemma_answered(before@, request@, view, after@);
}

/// What an answer is and what is kept of it.
pub(crate) proof fn lemma_answered(
    before: AuthState,
    request: RequestView,
    response: Result<ResponseView, ErrorView>,
    after: AuthState,
)
    requires
        responds(before, request, response, after),
    ensures
        refusal(before, request) matches Some(reason) ==> response == Ok::<
            ResponseView,
            ErrorView,
        >(ResponseView::Error(reason)) && after == (AuthState { error: Some(reason), ..before }),
        refusal(before, request) is None && before.key is None ==> response == Ok::<
            ResponseView,
            ErrorView,
        >(ResponseView::NoAuth) && after == before,
        refusal(before, request) is None && before.key is Some ==> {
            let key = before.key->0;
            &&& request.mode matches ModeView::Encryption(challenge)
            &&& challenge.len() == 16
            &&& if key.len() != 32 {
                &&& response == Err::<ResponseView, ErrorView>(
                    ErrorView::Generic("Creating sealer failed"@),
                )
                &&& after == before
            } else if encode_utf8(before.my_role).len() + 16 > 0xffff_fffe * 64 {
                &&& response == Err::<ResponseView, ErrorView>(
                    ErrorView::Generic("Cannot seal challenge"@),
                )
                &&& after == before
            } else {
                &&& response matches Ok(ResponseView::Encryption { nonce, response: sealed })
                &&& is_answer(key, before.my_role, challenge, nonce, sealed)
                &&& after.sealer == one_chunk(key, nonce, sealed)
                &&& after == (AuthState { sealer: after.sealer, ..before })
            }
        },
{
    if refusal(before, request) is None {
        if let Some(key) = before.key {
            if let Ok(ResponseView::Encryption { nonce, response: sealed }) = response {
                assert(Seq::<Seq<u8>>::empty().push(sealed) =~= seq![sealed]);
            }
        }
    }
}

/// Whether `end` is what a side comes to on a response, that knows `refused` as the reason why it
/// has refused its peer, if it has, that has the key `key` or none, expects the role `role` and has
/// sent `challenge`: the stream that the response opens, or the reason why the peer is not
/// accepted.
pub open spec fn is_end(
    refused: Option<Seq<char>>,
    key: Option<Seq<u8>>,
    role: Seq<char>,
    challenge: Seq<u8>,
    response: AuthenticationResponse,
    end: Result<Option<StreamState>, Seq<char>>,
) -> bool {
    match refused {
        Some(reason) => end == Err::<Option<StreamState>, Seq<char>>(
            "Authentication failed: "@ + reason,
        ),
        None => match response {
            AuthenticationResponse::Error(told) => end == Err::<Option<StreamState>, Seq<char>>(
                "Received authentication error: "@ + told.message@,
            ),
            AuthenticationResponse::NoAuth => end == if key is None {
                Ok::<Option<StreamState>, Seq<char>>(None)
            } else {
                Err("Invalid authentication state"@)
            },
            AuthenticationResponse::Encryption(answer) => match key {
                None => end == Err::<Option<StreamState>, Seq<char>>(
                    "Invalid authentication state"@,
                ),
                Some(key) => {
                    let opened = opened_chunk(
                        key,
                        answer.nonce@,
                        Seq::empty(),
                        answer.response@,
                    );
                    let fits = answer.nonce@.len() == 24 && key.len() == 32;
                    &&& answer.nonce@.len() != 24 ==> end == Err::<
                        Option<StreamState>,
                        Seq<char>,
                    >("Invalid nonce"@)
                    &&& answer.nonce@.len() == 24 && key.len() != 32 ==> end == Err::<
                        Option<StreamState>,
                        Seq<char>,
                    >("Failed to create opener"@)
                    &&& fits && opened is None ==> end == Err::<Option<StreamState>, Seq<char>>(
                        "Cannot verify challenge"@,
                    )
                    &&& fits && opened is Some && opened != Some(
                        (encode_utf8(role) + challenge, 0u8),
                    ) ==> end == Err::<Option<StreamState>, Seq<char>>(
                        "Received challenge does not match."@,
                    )
                    &&& fits && opened == Some((encode_utf8(role) + challenge, 0u8)) ==> end
                        == Ok::<Option<StreamState>, Seq<char>>(
                        one_chunk(key, answer.nonce@, answer.response@),
                    )
                },
            },
        },
    }
}

/// What a side comes to on a response.
pub(crate) proof fn lemma_end(state: AuthState, response: AuthenticationResponse)
    ensures
        is_end(
            state.error,
            state.key,
            state.peer_role,
            state.challenge,
            response,
            match finish_failure(state, response@) {
                Some(reason) => Err(reason),
                None => Ok(accepted_stream(state, response@)),
            },
        ),
{
    if let AuthenticationResponse::Encryption(answer) = response {
        assert(Seq::<Seq<u8>>::empty().push(answer.response@) =~= seq![answer.response@]);
    }
}

/// A side accepts its peer on the answer that it expects, with the stream of the answer and its
/// own, and rejects it on any other with the reason. One that has refused its peer never accepts
/// it.
pub proof fn peer_is_accepted_on_the_expected_answer(
    side: Authenticator,
    response: AuthenticationResponse,
    r: Result<(Option<StreamSealer>, Option<StreamOpener>), DsError>,
)
    requires
        call_ensures(Authenticator::finish_authentication, (side, response), r),
    ensures
        r matches Err(e) ==> e is AuthenticationRejected,
        r matches Ok((sealer, _)) ==> sealer_view(sealer) == side@.sealer,
        is_end(
            side@.error,
            side@.key,
            side@.peer_role,
            side@.challenge,
            response,
            match r {
                Ok((_, opener)) => Ok(opener_view(opener)),
                Err(e) => Err(e->AuthenticationRejected_0@),
            },
        ),
{
    lemma_end(side@, response);
}

/// What a peer has to seal is its role in UTF-8 and then the challenge, and an opened answer is
/// right exactly where it is that of the expected role to the challenge, with the tag of a message.
pub proof fn answer_is_role_and_challenge(
    role: &str,
    challenge: &Vec<u8>,
    text: Vec<u8>,
    side: Authenticator,
    opened: Vec<u8>,
    tag: ChunkTag,
    r: Result<(), DsError>,
)
    requires
        call_ensures(challenge_answer, (role, challenge), text),
        call_ensures(Authenticator::check_opened_answer, (&side, &opened, tag), r),
    ensures
        text@ == encode_utf8(role@) + challenge@,
        r is Ok <==> tag == ChunkTag::Message && opened@ == encode_utf8(side@.peer_role)
            + side@.challenge,
        r matches Err(e) ==> (e matches DsError::AuthenticationRejected(text) && text@
            == "Received challenge does not match."@),
{
}

/// A side starts with what it is given, and has sent nothing, sealed nothing and refused nobody.
pub proof fn side_starts_with_what_it_is_given(
    protocol: u32,
    role: &'static str,
    peer_role: &'static str,
    key: Option<Arc<SecretKey>>,
    side: Authenticator,
)
    requires
        call_ensures(Authenticator::new, (protocol, role, peer_role, key), side),
    ensures
        side@.protocol == protocol,
        side@.my_role == role@,
        side@.peer_role == peer_role@,
        side@.key is Some <==> key is Some,
        key matches Some(secret) ==> side@.key == Some(secret_key_bytes(*secret)),
        side@.challenge.len() == 0,
        side@.sealer is None,
        side@.error is None,
{
}

/// A challenge that a request is made with goes out as it is and is kept as it is; without a key it
/// does neither.
pub proof fn challenge_goes_out_as_it_is(
    before: Authenticator,
    after: Authenticator,
    challenge: Vec<u8>,
    r: AuthenticationRequest,
)
    requires
        exists|side: &mut Authenticator|
            {
                &&& #[trigger] call_ensures(
                    Authenticator::request_with_challenge,
                    (side, challenge),
                    r,
                )
                &&& *side == before
                &&& *final(side) == after
            },
    ensures
        r.protocol == before@.protocol,
        r.role@ == before@.my_role,
        before@.key is Some ==> {
            &&& r.mode matches AuthenticationMode::Encryption(sent)
            &&& sent.challenge@ == challenge@
            &&& after@ == (AuthState { challenge: challenge@, ..before@ })
        },
        before@.key is None ==> r.mode is NoAuth && after@ == before@,
{
    if let AuthenticationMode::Encryption(sent) = r.mode {
        assert(r@.mode == ModeView::Encryption(sent.challenge@));
    }
}

/// A reason goes out as it is and is kept as it is, and so are the nonce, the sealed answer and the
/// stream of an answer.
pub proof fn answer_goes_out_as_it_is(
    before: Authenticator,
    refusing: Authenticator,
    answering: Authenticator,
    message: String,
    refused: Result<AuthenticationResponse, DsError>,
    sealer: StreamSealer,
    nonce: Vec<u8>,
    response: Vec<u8>,
    answered: AuthenticationResponse,
)
    requires
        exists|side: &mut Authenticator|
            {
                &&& #[trigger] call_ensures(Authenticator::_make_error, (side, message), refused)
                &&& *side == before
                &&& *final(side) == refusing
            },
        exists|side: &mut Authenticator|
            {
                &&& #[trigger] call_ensures(
                    Authenticator::response_with_sealer,
                    (side, sealer, nonce, response),
                    answered,
                )
                &&& *side == before
                &&& *final(side) == answering
            },
    ensures
        refused matches Ok(AuthenticationResponse::Error(told)) && told.message@ == message@,
        refusing@ == (AuthState { error: Some(message@), ..before@ }),
        answered matches AuthenticationResponse::Encryption(answer) && answer.nonce@ == nonce@
            && answer.response@ == response@,
        answering@ == (AuthState { sealer: sealer_view(Some(sealer)), ..before@ }),
{
}

} // verus!
