//! The encrypted stream of `orion`, as the rest of the library sees it.
//!
//! A sealer and an opener are known by the key and the nonce that they were made with and by the
//! chunks that have gone through them: these three determine everything that they do next.

use orion::aead::streaming::{Nonce, StreamOpener, StreamSealer, StreamTag};
use orion::errors::UnknownCryptoError;
use orion::kdf::SecretKey;
use vstd::prelude::*;

verus! {

/// The length of the key of a stream.
pub const STREAM_KEY_LENGTH: usize = 32;

/// The length of the nonce of a stream.
pub const STREAM_NONCE_LENGTH: usize = 24;

/// By how much a sealed chunk is longer than its plaintext.
pub const CHUNK_OVERHEAD: usize = 17;

/// The longest plaintext that a single chunk can carry: the cipher numbers its blocks of 64 bytes
/// with 32 bits and has two of the numbers taken.
pub const MAX_CHUNK_PLAINTEXT: u64 = 0xffff_fffe * 64;

/// What a chunk means to the stream that it travels in.
#[derive(Clone, Copy, Debug, PartialEq, Eq, Structural)]
pub enum ChunkTag {
    /// An ordinary message.
    Message,
    /// The end of a set of messages.
    Push,
    /// A change of key.
    Rekey,
    /// The end of the stream.
    Finish,
}

impl ChunkTag {
    /// The byte that stands for the tag in a chunk.
    pub open spec fn code(self) -> u8 {
        match self {
            ChunkTag::Message => 0,
            ChunkTag::Push => 1,
            ChunkTag::Rekey => 2,
            ChunkTag::Finish => 3,
        }
    }
}

/// What determines the further behaviour of one end of a stream.
#[verifier::ext_equal]
pub struct StreamState {
    pub key: Seq<u8>,
    pub nonce: Seq<u8>,
    /// The sealed chunks that have passed, in order.
    pub chunks: Seq<Seq<u8>>,
}

impl StreamState {
    /// An end of a stream that nothing has passed yet.
    pub open spec fn fresh(key: Seq<u8>, nonce: Seq<u8>) -> StreamState {
        StreamState { key, nonce, chunks: Seq::empty() }
    }

    /// The same end after one more chunk.
    pub open spec fn after(self, chunk: Seq<u8>) -> StreamState {
        StreamState { chunks: self.chunks.push(chunk), ..self }
    }

    /// The chunk that comes out of sealing `plaintext` in this state.
    pub open spec fn seal(self, plaintext: Seq<u8>, tag: ChunkTag) -> Seq<u8> {
        sealed_chunk(self.key, self.nonce, self.chunks, plaintext, tag.code())
    }

    /// The plaintext and the code of the tag of `chunk`, if it is authentic in this state.
    pub open spec fn open(self, chunk: Seq<u8>) -> Option<(Seq<u8>, u8)> {
        opened_chunk(self.key, self.nonce, self.chunks, chunk)
    }
}

/// The declaration of `orion`'s error, which carries no information.
#[verifier::external_type_specification]
#[verifier::external_body]
pub struct ExUnknownCryptoError(UnknownCryptoError);

/// The declaration of `orion`'s secret key, a sequence of bytes.
#[verifier::external_type_specification]
#[verifier::external_body]
pub struct ExSecretKey(SecretKey);

/// The declaration of `orion`'s stream nonce, a sequence of bytes.
#[verifier::external_type_specification]
#[verifier::external_body]
pub struct ExNonce(Nonce);

/// The declaration of the sending end of an `orion` stream.
#[verifier::external_type_specification]
#[verifier::external_body]
pub struct ExStreamSealer(StreamSealer);

/// The declaration of the receiving end of an `orion` stream.
#[verifier::external_type_specification]
#[verifier::external_body]
pub struct ExStreamOpener(StreamOpener);

/// The bytes of a secret key.
pub uninterp spec fn secret_key_bytes(key: SecretKey) -> Seq<u8>;

/// The bytes of a nonce.
pub uninterp spec fn nonce_bytes(nonce: Nonce) -> Seq<u8>;

/// The chunks that a sealer has sealed, in order.
pub uninterp spec fn sealer_chunks(sealer: StreamSealer) -> Seq<Seq<u8>>;

/// The key and the nonce that a sealer was made with.
pub uninterp spec fn sealer_origin(sealer: StreamSealer) -> (Seq<u8>, Seq<u8>);

/// The chunks that an opener has opened, in order.
pub uninterp spec fn opener_chunks(opener: StreamOpener) -> Seq<Seq<u8>>;

/// The key and the nonce that an opener was made with.
pub uninterp spec fn opener_origin(opener: StreamOpener) -> (Seq<u8>, Seq<u8>);

/// What `StreamSealer::seal_chunk` returns for `plaintext` and the tag with the code `tag`, of a
/// sealer made with `key` and `nonce` that has sealed `earlier`.
pub uninterp spec fn sealed_chunk(
    key: Seq<u8>,
    nonce: Seq<u8>,
    earlier: Seq<Seq<u8>>,
    plaintext: Seq<u8>,
    tag: u8,
) -> Seq<u8>;

/// What `StreamOpener::open_chunk` returns for `chunk`, of an opener made with `key` and `nonce`
/// that has opened `earlier`: the plaintext and the code of the tag, or nothing if the chunk is
/// not authentic.
pub uninterp spec fn opened_chunk(
    key: Seq<u8>,
    nonce: Seq<u8>,
    earlier: Seq<Seq<u8>>,
    chunk: Seq<u8>,
) -> Option<(Seq<u8>, u8)>;

/// The state of a sealer.
pub open spec fn sealer_state(sealer: StreamSealer) -> StreamState {
    StreamState {
        key: sealer_origin(sealer).0,
        nonce: sealer_origin(sealer).1,
        chunks: sealer_chunks(sealer),
    }
}

/// The state of an opener.
pub open spec fn opener_state(opener: StreamOpener) -> StreamState {
    StreamState {
        key: opener_origin(opener).0,
        nonce: opener_origin(opener).1,
        chunks: opener_chunks(opener),
    }
}

/// `orion::util::secure_rand_bytes` fills a buffer with random bytes and fails on an empty buffer
/// alone. Of the bytes nothing is claimed. Where the system has no randomness to give, it panics.
pub assume_specification[ orion::util::secure_rand_bytes ](dst: &mut [u8]) -> (r: Result<
    (),
    UnknownCryptoError,
>)
    ensures
        r is Ok <==> old(dst)@.len() > 0,
        final(dst)@.len() == old(dst)@.len(),
;

/// `Nonce::from_slice` makes a nonce of the bytes that it is given, and fails unless there are
/// twenty-four of them.
pub assume_specification[ Nonce::from_slice ](slice: &[u8]) -> (r: Result<
    Nonce,
    UnknownCryptoError,
>)
    ensures
        r is Ok <==> slice@.len() == STREAM_NONCE_LENGTH,
        r matches Ok(nonce) ==> nonce_bytes(nonce) == slice@,
;

/// `StreamOpener::new` makes the receiving end of a stream that nothing has passed yet, and fails
/// unless the key has thirty-two bytes.
pub assume_specification[ StreamOpener::new ](secret_key: &SecretKey, nonce: &Nonce) -> (r: Result<
    StreamOpener,
    UnknownCryptoError,
>)
    ensures
        r is Ok <==> secret_key_bytes(*secret_key).len() == STREAM_KEY_LENGTH,
        r matches Ok(opener) ==> opener_origin(opener) == (
            secret_key_bytes(*secret_key),
            nonce_bytes(*nonce),
        ),
        r matches Ok(opener) ==> opener_chunks(opener) == Seq::<Seq<u8>>::empty(),
;

/// `StreamSealer::new` draws a nonce of twenty-four bytes and makes the sending end of a stream
/// that nothing has passed yet. It fails unless the key has thirty-two bytes. Of which nonce is
/// drawn nothing is claimed. Where the system has no randomness to give, it panics.
#[verifier::external_body]
pub(crate) fn new_sealer(secret_key: &SecretKey) -> (r: Result<
    (StreamSealer, Vec<u8>),
    UnknownCryptoError,
>)
    ensures
        r is Ok <==> secret_key_bytes(*secret_key).len() == STREAM_KEY_LENGTH,
        r matches Ok(made) ==> made.1@.len() == STREAM_NONCE_LENGTH,
        r matches Ok(made) ==> sealer_origin(made.0) == (secret_key_bytes(*secret_key), made.1@),
        r matches Ok(made) ==> sealer_chunks(made.0) == Seq::<Seq<u8>>::empty(),
{
    let (sealer, nonce) = StreamSealer::new(secret_key)?;
    Ok((sealer, nonce.as_ref().to_vec()))
}

/// `StreamSealer::seal_chunk` seals a plaintext into the next chunk of its stream. It fails on a
/// plaintext that the cipher cannot number the blocks of, and then leaves the sealer as it was.
/// An opener in the state that the sealer was in gets the plaintext and the tag back from the
/// chunk. It panics where the chunk would outgrow what an allocation can hold.
#[verifier::external_body]
pub(crate) fn seal_chunk(sealer: &mut StreamSealer, plaintext: &[u8], tag: ChunkTag) -> (r: Result<
    Vec<u8>,
    UnknownCryptoError,
>)
    requires
        plaintext@.len() + CHUNK_OVERHEAD <= isize::MAX,
    ensures
        r is Ok <==> plaintext@.len() <= MAX_CHUNK_PLAINTEXT,
        r matches Ok(chunk) ==> chunk@ == sealed_chunk(
            sealer_origin(*old(sealer)).0,
            sealer_origin(*old(sealer)).1,
            sealer_chunks(*old(sealer)),
            plaintext@,
            tag.code(),
        ),
        r matches Ok(chunk) ==> chunk@.len() == plaintext@.len() + CHUNK_OVERHEAD,
        r matches Ok(chunk) ==> opened_chunk(
            sealer_origin(*old(sealer)).0,
            sealer_origin(*old(sealer)).1,
            sealer_chunks(*old(sealer)),
            chunk@,
        ) == Some((plaintext@, tag.code())),
        sealer_origin(*final(sealer)) == sealer_origin(*old(sealer)),
        sealer_chunks(*final(sealer)) == match r {
            Ok(chunk) => sealer_chunks(*old(sealer)).push(chunk@),
            Err(_) => sealer_chunks(*old(sealer)),
        },
{
    let tag = match tag {
        ChunkTag::Message => StreamTag::Message,
        ChunkTag::Push => StreamTag::Push,
        ChunkTag::Rekey => StreamTag::Rekey,
        ChunkTag::Finish => StreamTag::Finish,
    };
    sealer.seal_chunk(plaintext, &tag)
}

/// `StreamOpener::open_chunk` opens the next chunk of its stream. It fails on a chunk that is not
/// authentic there, and then leaves the opener as it was. Which chunks that no sealer has made are
/// taken for authentic, is a matter of chance and left unsaid.
#[verifier::external_body]
pub(crate) fn open_chunk(opener: &mut StreamOpener, chunk: &[u8]) -> (r: Result<
    (Vec<u8>, ChunkTag),
    UnknownCryptoError,
>)
    ensures
        opened_chunk(
            opener_origin(*old(opener)).0,
            opener_origin(*old(opener)).1,
            opener_chunks(*old(opener)),
            chunk@,
        ) == match r {
            Ok((plaintext, tag)) => Some((plaintext@, tag.code())),
            Err(_) => None,
        },
        opener_origin(*final(opener)) == opener_origin(*old(opener)),
        opener_chunks(*final(opener)) == match r {
            Ok(_) => opener_chunks(*old(opener)).push(chunk@),
            Err(_) => opener_chunks(*old(opener)),
        },
{
    let (plaintext, tag) = opener.open_chunk(chunk)?;
    let tag = match tag {
        StreamTag::Message => ChunkTag::Message,
        StreamTag::Push => ChunkTag::Push,
        StreamTag::Rekey => ChunkTag::Rekey,
        StreamTag::Finish => ChunkTag::Finish,
    };
    Ok((plaintext, tag))
}

} // verus!
