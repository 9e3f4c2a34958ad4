//! The chunked encrypt/decrypt pipeline.
//!
//! Encryption splits the source bytes into chunks of at most `chunk_size`
//! bytes, seals each chunk (nonce, ciphertext, tag), and frames each sealed
//! blob as one section. Decryption parses the sections in order, opens each
//! blob, and concatenates the plaintext chunks. Results flow through the
//! order-preserving task queue, so section order on disk equals source byte
//! order.

use vstd::prelude::*;

use crate::codec::frame_bytes;
use crate::codec::read_section;
use crate::codec::sections_bytes;
use crate::codec::write_section;
use crate::codec::decode_len_spec;
use crate::codec::lemma_parse_frame;
use crate::codec::lemma_sections_bytes_push;
use crate::codec::SectionParse;
use crate::codec::section_parse;
use crate::codec::MAX_SECTION_LEN;
use crate::crypto::aes_blob_opens_to;
use crate::crypto::aes_decrypt;
use crate::crypto::aes_encrypt;
use crate::crypto::AES_NONCE_SIZE;
use crate::crypto::AES_TAG_SIZE;
use crate::crypto::GCM_MAX_PLAINTEXT_LEN;
use crate::pool::task_channel;
use crate::types::BackupError;
use crate::types::BackupResult;
use crate::types::IoErrorKind;

verus! {

/// The first chunk of a plaintext at chunk size `c`: the whole plaintext
/// when it fits, else its first `c` bytes.
pub open spec fn first_chunk(plain: Seq<u8>, c: nat) -> Seq<u8> {
    if plain.len() <= c {
        plain
    } else {
        plain.take(c as int)
    }
}

/// Whether `out` is a chunked encryption of `plain` under `key` at chunk
/// size `c`: one section per chunk, in order, each holding a sealed blob
/// that is 28 bytes (nonce and tag) longer than its chunk and that opens
/// back to exactly that chunk under `key`.
pub open spec fn is_chunked_encryption(out: Seq<u8>, key: Seq<u8>, plain: Seq<u8>, c: nat) -> bool
    decreases plain.len(),
{
    if c == 0 {
        false
    } else if plain.len() == 0 {
        out.len() == 0
    } else {
        exists|blob: Seq<u8>|
            {
                let head = first_chunk(plain, c);
                let rest = out.skip(5 + blob.len() as int);
                &&& out == frame_bytes(blob) + rest
                &&& blob.len() == head.len() + (AES_NONCE_SIZE + AES_TAG_SIZE)
                &&& #[trigger] aes_blob_opens_to(key, blob) == Some(head)
                &&& is_chunked_encryption(rest, key, plain.skip(head.len() as int), c)
            }
    }
}

/// What decrypting a section stream under `key` yields: the concatenated
/// plaintext chunks, an unexpected-end-of-file error when the stream ends
/// inside a frame, or a crypto error on the first blob that does not open.
pub open spec fn decrypt_stream_spec(key: Seq<u8>, data: Seq<u8>) -> Result<Seq<u8>, BackupError>
    decreases data.len(),
{
    if data.len() == 0 {
        Ok(Seq::empty())
    } else if data.len() < 5 {
        Err(BackupError::IoError(IoErrorKind::UnexpectedEof))
    } else {
        let l = decode_len_spec(data.take(5)) as int;
        if data.len() < 5 + l {
            Err(BackupError::IoError(IoErrorKind::UnexpectedEof))
        } else {
            match aes_blob_opens_to(key, data.subrange(5, 5 + l)) {
                None => Err(BackupError::CryptoError),
                Some(p) => match decrypt_stream_spec(key, data.skip(5 + l)) {
                    Ok(rest) => Ok(p + rest),
                    Err(e) => Err(e),
                },
            }
        }
    }
}

/// Whether a submitted task result is the successful sealing of `blob`.
spec fn result_is_blob(r: BackupResult<Vec<u8>>, blob: Seq<u8>) -> bool {
    r matches Ok(v) && v@ == blob
}

/// The plaintext that draining the queued task results in order produces,
/// ending with `tail`: the first error wins, and successful outputs are
/// concatenated in delivery order.
spec fn drain_results(rs: Seq<BackupResult<Vec<u8>>>, tail: Result<Seq<u8>, BackupError>) -> Result<
    Seq<u8>,
    BackupError,
>
    decreases rs.len(),
{
    if rs.len() == 0 {
        tail
    } else {
        match rs.first() {
            Err(e) => Err(e),
            Ok(v) => match drain_results(rs.drop_first(), tail) {
                Ok(rest) => Ok(v@ + rest),
                Err(e) => Err(e),
            },
        }
    }
}

/// One step of draining: what one task result contributes ahead of `tail`.
spec fn step_result(r: BackupResult<Vec<u8>>, tail: Result<Seq<u8>, BackupError>) -> Result<
    Seq<u8>,
    BackupError,
> {
    match r {
        Err(e) => Err(e),
        Ok(v) => match tail {
            Ok(rest) => Ok(v@ + rest),
            Err(e) => Err(e),
        },
    }
}

/// Prefixes already-written output onto a draining outcome.
spec fn prepend_output(p: Seq<u8>, tail: Result<Seq<u8>, BackupError>) -> Result<
    Seq<u8>,
    BackupError,
> {
    match tail {
        Ok(rest) => Ok(p + rest),
        Err(e) => Err(e),
    }
}

/// The draining outcome that the reading phase leaves behind: a clean end of
/// the stream, or the framing error it stopped on.
spec fn tail_of(end_err: Option<BackupError>) -> Result<Seq<u8>, BackupError> {
    match end_err {
        None => Ok(Seq::empty()),
        Some(e) => Err(e),
    }
}

/// Submitting one more result postpones it to the end of the drain.
proof fn lemma_drain_results_push(
    rs: Seq<BackupResult<Vec<u8>>>,
    r: BackupResult<Vec<u8>>,
    tail: Result<Seq<u8>, BackupError>,
)
    ensures
        drain_results(rs.push(r), tail) == drain_results(rs, step_result(r, tail)),
    decreases rs.len(),
{
    if rs.len() == 0 {
        assert(rs.push(r).first() == r);
        assert(rs.push(r).drop_first() =~= rs);
        assert(drain_results(rs.push(r).drop_first(), tail) == tail);
    } else {
        lemma_drain_results_push(rs.drop_first(), r, tail);
        assert(rs.push(r).drop_first() =~= rs.drop_first().push(r));
        assert(rs.push(r).first() == rs.first());
    }
}

/// Encrypts a byte stream in chunks: splits `src` into chunks of at most
/// `chunk_size` bytes, seals each one, and frames the sealed blobs as
/// sections in source order. A 0-byte source produces a 0-byte output.
pub fn encrypt_data(src: &[u8], key: &[u8; 32], chunk_size: usize, pool_size: u8) -> (r:
    BackupResult<Vec<u8>>)
    requires
        1 <= chunk_size,
        chunk_size <= GCM_MAX_PLAINTEXT_LEN,
        pool_size >= 1,
    ensures
        r is Ok,
        r matches Ok(out) ==> is_chunked_encryption(out@, key@, src@, chunk_size as nat),
{
    let ghost c = chunk_size as nat;
    let mut sender = task_channel::<BackupResult<Vec<u8>>>(pool_size as usize);
    let ghost mut blobs: Seq<Seq<u8>> = Seq::empty();
    let mut pos: usize = 0;

    proof {
        assert forall|rest: Seq<u8>|
            is_chunked_encryption(rest, key@, src@.skip(0), c) implies is_chunked_encryption(
            sections_bytes(blobs) + rest,
            key@,
            src@,
            c,
        ) by {
            assert(src@.skip(0) =~= src@);
            assert(sections_bytes(blobs) + rest =~= rest);
        }
    }

    while pos < src.len()
        invariant
            1 <= chunk_size <= GCM_MAX_PLAINTEXT_LEN,
            c == chunk_size as nat,
            pos <= src@.len(),
            sender@.len() == blobs.len(),
            forall|i: int|
                0 <= i < blobs.len() ==> #[trigger] result_is_blob(sender@[i], blobs[i]),
            forall|i: int| 0 <= i < blobs.len() ==> #[trigger] blobs[i].len() < MAX_SECTION_LEN,
            forall|rest: Seq<u8>|
                is_chunked_encryption(rest, key@, src@.skip(pos as int), c)
                    ==> is_chunked_encryption(sections_bytes(blobs) + rest, key@, src@, c),
        decreases src@.len() - pos,
    {
        let end = if src.len() - pos > chunk_size {
            pos + chunk_size
        } else {
            src.len()
        };
        let chunk = vstd::slice::slice_subrange(src, pos, end);
        let ghost suffix = src@.skip(pos as int);
        proof {
            assert(chunk@ =~= suffix.take((end - pos) as int));
            assert(first_chunk(suffix, c) == chunk@) by {
                if suffix.len() <= c {
                    assert(chunk@ =~= suffix);
                } else {
                    assert(chunk@ =~= suffix.take(c as int));
                }
            }
        }
        let blob = match aes_encrypt(key, chunk) {
            Ok(b) => b,
            Err(e) => {
                return Err(e);
            },
        };
        let ghost bv = blob@;
        sender.send(Ok(blob));
        proof {
            let prev = blobs;
            blobs = blobs.push(bv);
            lemma_sections_bytes_push(prev, bv);
            assert(suffix.skip((end - pos) as int) =~= src@.skip(end as int));
            assert forall|rest: Seq<u8>|
                is_chunked_encryption(rest, key@, src@.skip(end as int), c)
                    implies is_chunked_encryption(
                sections_bytes(blobs) + rest,
                key@,
                src@,
                c,
            ) by {
                let head = first_chunk(suffix, c);
                assert(is_chunked_encryption(rest, key@, suffix.skip(head.len() as int), c));
                assert(is_chunked_encryption(frame_bytes(bv) + rest, key@, suffix, c)) by {
                    assert(aes_blob_opens_to(key@, bv) == Some(head));
                    assert((frame_bytes(bv) + rest).skip(5 + bv.len() as int) =~= rest);
                }
                assert(sections_bytes(prev) + (frame_bytes(bv) + rest) =~= sections_bytes(blobs)
                    + rest);
            }
        }
        pos = end;
    }

    proof {
        assert(src@.skip(pos as int) =~= Seq::<u8>::empty());
        assert(is_chunked_encryption(Seq::<u8>::empty(), key@, src@.skip(pos as int), c));
        assert(is_chunked_encryption(sections_bytes(blobs) + Seq::<u8>::empty(), key@, src@, c));
        assert(sections_bytes(blobs) + Seq::<u8>::empty() =~= sections_bytes(blobs));
    }

    let mut receiver = sender.finish();
    let ghost all = receiver@;
    let mut out: Vec<u8> = Vec::new();
    let ghost mut j: int = 0;

    loop
        invariant
            0 <= j <= blobs.len(),
            all.len() == blobs.len(),
            receiver@ == all.skip(j),
            forall|i: int| 0 <= i < blobs.len() ==> #[trigger] result_is_blob(all[i], blobs[i]),
            forall|i: int| 0 <= i < blobs.len() ==> #[trigger] blobs[i].len() < MAX_SECTION_LEN,
            out@ == sections_bytes(blobs.take(j)),
            is_chunked_encryption(sections_bytes(blobs), key@, src@, c),
        ensures
            j == blobs.len(),
            out@ == sections_bytes(blobs.take(j)),
            is_chunked_encryption(sections_bytes(blobs), key@, src@, c),
        decreases receiver@.len(),
    {
        match receiver.recv() {
            None => {
                break ;
            },
            Some(res) => {
                proof {
                    assert(all.skip(j).first() == all[j]);
                    assert(result_is_blob(all[j], blobs[j]));
                }
                match res {
                    Ok(blob) => {
                        write_section(&mut out, blob.as_slice());
                        proof {
                            lemma_sections_bytes_push(blobs.take(j), blob@);
                            assert(blobs.take(j).push(blob@) =~= blobs.take(j + 1));
                            assert(all.skip(j).drop_first() =~= all.skip(j + 1));
                            j = j + 1;
                        }
                    },
                    Err(e) => {
                        return Err(e);
                    },
                }
            },
        }
    }

    proof {
        assert(blobs.take(j) =~= blobs);
    }
    Ok(out)
}

/// Decrypts a section stream in chunks: parses each section in order, opens
/// its sealed blob, and concatenates the plaintext chunks in section order.
/// Decryption of a 0-byte stream produces a 0-byte output. The stream ending
/// inside a frame is an unexpected-end-of-file error; a blob that does not
/// open under `key` is a crypto error; the first error in stream order wins.
pub fn decrypt_data(src: &[u8], key: &[u8; 32], pool_size: u8) -> (r: BackupResult<Vec<u8>>)
    requires
        pool_size >= 1,
    ensures
        match r {
            Ok(v) => decrypt_stream_spec(key@, src@) == Ok::<Seq<u8>, BackupError>(v@),
            Err(e) => decrypt_stream_spec(key@, src@) == Err::<Seq<u8>, BackupError>(e),
        },
{
    let mut sender = task_channel::<BackupResult<Vec<u8>>>(pool_size as usize);
    let mut pos: usize = 0;
    let mut end_err: Option<BackupError> = None;

    proof {
        assert(src@.skip(0) =~= src@);
    }

    loop
        invariant_except_break
            end_err is None,
        invariant
            pos <= src@.len(),
            decrypt_stream_spec(key@, src@) == drain_results(
                sender@,
                decrypt_stream_spec(key@, src@.skip(pos as int)),
            ),
        ensures
            decrypt_stream_spec(key@, src@) == drain_results(sender@, tail_of(end_err)),
        decreases src@.len() - pos,
    {
        let ghost suffix = src@.skip(pos as int);
        match read_section(src, pos) {
            Ok(None) => {
                proof {
                    assert(suffix.len() == 0);
                }
                break ;
            },
            Ok(Some((payload, next))) => {
                let ghost l = (next - pos - 5) as int;
                let res = aes_decrypt(key, payload.as_slice());
                proof {
                    let parsed = section_parse(suffix);
                    assert(parsed == SectionParse::Frame(payload@, next - pos));
                    assert(suffix.len() >= 5);
                    assert(payload@ == suffix.subrange(5, 5 + l));
                    assert(decode_len_spec(suffix.take(5)) == l);
                    assert(suffix.skip(5 + l) =~= src@.skip(next as int));
                    assert(decrypt_stream_spec(key@, suffix) == step_result(
                        res,
                        decrypt_stream_spec(key@, src@.skip(next as int)),
                    ));
                    lemma_drain_results_push(
                        sender@,
                        res,
                        decrypt_stream_spec(key@, src@.skip(next as int)),
                    );
                }
                sender.send(res);
                pos = next;
            },
            Err(e) => {
                proof {
                    assert(decrypt_stream_spec(key@, suffix) == Err::<Seq<u8>, BackupError>(e));
                }
                end_err = Some(e);
                break ;
            },
        }
    }

    let mut receiver = sender.finish();
    let mut out: Vec<u8> = Vec::new();

    loop
        invariant
            decrypt_stream_spec(key@, src@) == prepend_output(
                out@,
                drain_results(receiver@, tail_of(end_err)),
            ),
        ensures
            receiver@.len() == 0,
            decrypt_stream_spec(key@, src@) == prepend_output(out@, tail_of(end_err)),
        decreases receiver@.len(),
    {
        let ghost before = receiver@;
        match receiver.recv() {
            None => {
                break ;
            },
            Some(res) => match res {
                Ok(mut v) => {
                    let ghost vv = v@;
                    proof {
                        assert(drain_results(before, tail_of(end_err)) == match drain_results(
                            before.drop_first(),
                            tail_of(end_err),
                        ) {
                            Ok(rest) => Ok::<Seq<u8>, BackupError>(vv + rest),
                            Err(e) => Err::<Seq<u8>, BackupError>(e),
                        });
                    }
                    let ghost out_before = out@;
                    out.append(&mut v);
                    proof {
                        let dr = drain_results(receiver@, tail_of(end_err));
                        match dr {
                            Ok(rest) => {
                                assert(out_before + (vv + rest) =~= out@ + rest);
                            },
                            Err(_) => {},
                        }
                    }
                },
                Err(e) => {
                    return Err(e);
                },
            },
        }
    }

    match end_err {
        Some(e) => Err(e),
        None => {
            proof {
                assert(out@ + Seq::<u8>::empty() =~= out@);
            }
            Ok(out)
        },
    }
}

/// Decrypting a chunked encryption under the key that produced it recovers
/// the plaintext exactly: the round trip is the identity, whatever nonces
/// were sampled for the chunks.
pub proof fn lemma_decrypt_of_encrypt(out: Seq<u8>, key: Seq<u8>, plain: Seq<u8>, c: nat)
    requires
        is_chunked_encryption(out, key, plain, c),
        c <= GCM_MAX_PLAINTEXT_LEN,
    ensures
        decrypt_stream_spec(key, out) == Ok::<Seq<u8>, BackupError>(plain),
    decreases plain.len(),
{
    if plain.len() == 0 {
        assert(out.len() == 0);
        assert(plain =~= Seq::<u8>::empty());
    } else {
        let head = first_chunk(plain, c);
        let blob = choose|blob: Seq<u8>|
            {
                let rest = out.skip(5 + blob.len() as int);
                &&& out == frame_bytes(blob) + rest
                &&& blob.len() == head.len() + (AES_NONCE_SIZE + AES_TAG_SIZE)
                &&& #[trigger] aes_blob_opens_to(key, blob) == Some(head)
                &&& is_chunked_encryption(rest, key, plain.skip(head.len() as int), c)
            };
        let rest = out.skip(5 + blob.len() as int);
        lemma_parse_frame(blob, rest);
        let l = blob.len() as int;
        assert(out.take(5) == frame_bytes(blob).take(5)) by {
            assert(out.take(5) =~= frame_bytes(blob).take(5));
        }
        assert(decode_len_spec(out.take(5)) == blob.len()) by {
            crate::codec::lemma_decode_of_encode(blob.len());
            assert(frame_bytes(blob).take(5) =~= crate::codec::encode_len_spec(blob.len()));
        }
        assert(out.subrange(5, 5 + l) =~= blob);
        assert(out.skip(5 + l) =~= rest);
        lemma_decrypt_of_encrypt(rest, key, plain.skip(head.len() as int), c);
        assert(head + plain.skip(head.len() as int) =~= plain);
    }
}

/// The number of chunks that a plaintext of `len` bytes splits into at
/// chunk size `c`: the length divided by `c`, rounded up.
pub open spec fn chunk_count(len: nat, c: nat) -> nat
    decreases len,
{
    if c == 0 || len == 0 {
        0
    } else if len <= c {
        1
    } else {
        1 + chunk_count((len - c) as nat, c)
    }
}

/// A chunked encryption is exactly 33 bytes longer than the plaintext for
/// each of its chunks: a 5-byte length prefix, a 12-byte nonce and a
/// 16-byte tag.
pub proof fn lemma_ciphertext_length(out: Seq<u8>, key: Seq<u8>, plain: Seq<u8>, c: nat)
    requires
        is_chunked_encryption(out, key, plain, c),
    ensures
        out.len() == plain.len() + 33 * chunk_count(plain.len(), c),
    decreases plain.len(),
{
    if plain.len() > 0 {
        let head = first_chunk(plain, c);
        let blob = choose|blob: Seq<u8>|
            {
                let rest = out.skip(5 + blob.len() as int);
                &&& out == frame_bytes(blob) + rest
                &&& blob.len() == head.len() + (AES_NONCE_SIZE + AES_TAG_SIZE)
                &&& #[trigger] aes_blob_opens_to(key, blob) == Some(head)
                &&& is_chunked_encryption(rest, key, plain.skip(head.len() as int), c)
            };
        let rest = out.skip(5 + blob.len() as int);
        let tail = plain.skip(head.len() as int);
        lemma_ciphertext_length(rest, key, tail, c);
    }
}

/// A chunked encryption of a non-empty plaintext is strictly longer than the
/// plaintext, and in particular differs from it: every chunk adds a length
/// prefix, a nonce and a tag.
pub proof fn lemma_ciphertext_differs(out: Seq<u8>, key: Seq<u8>, plain: Seq<u8>, c: nat)
    requires
        is_chunked_encryption(out, key, plain, c),
        plain.len() > 0,
    ensures
        out.len() > plain.len(),
        out != plain,
    decreases plain.len(),
{
    let head = first_chunk(plain, c);
    let blob = choose|blob: Seq<u8>|
        {
            let rest = out.skip(5 + blob.len() as int);
            &&& out == frame_bytes(blob) + rest
            &&& blob.len() == head.len() + (AES_NONCE_SIZE + AES_TAG_SIZE)
            &&& #[trigger] aes_blob_opens_to(key, blob) == Some(head)
            &&& is_chunked_encryption(rest, key, plain.skip(head.len() as int), c)
        };
    let rest = out.skip(5 + blob.len() as int);
    let tail = plain.skip(head.len() as int);
    if tail.len() == 0 {
        assert(rest.len() == 0);
    } else {
        lemma_ciphertext_differs(rest, key, tail, c);
    }
}

} // verus!

