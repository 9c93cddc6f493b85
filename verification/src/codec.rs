//! The snappy codec used by the remote-read protocol: buffer management is
//! verified here; the raw compression rounds go through the snap crate.

use vstd::prelude::*;

verus! {

#[verifier::external_type_specification]
#[verifier::external_body]
pub struct ExSnapEncoder(snap::raw::Encoder);

#[verifier::external_type_specification]
#[verifier::external_body]
pub struct ExSnapDecoder(snap::raw::Decoder);

#[verifier::external_type_specification]
#[verifier::external_body]
pub struct ExSnapError(snap::Error);

/// The snappy encoding of a byte sequence: a pure function of the bytes.
pub uninterp spec fn snap_compressed(data: Seq<u8>) -> Seq<u8>;

/// The uncompressed length announced by a compressed buffer's header, when
/// the header parses: a pure function of the bytes.
pub uninterp spec fn snap_len_of(input: Seq<u8>) -> Option<nat>;

/// The greatest compressed size snap may produce for an input length, and
/// the least output buffer it accepts; zero when the input is too big.
pub open spec fn spec_max_compress_len(input_len: int) -> int {
    if input_len > 0xFFFF_FFFF {
        0
    } else {
        let max = 32 + input_len + input_len / 6;
        if max > 0xFFFF_FFFF {
            0
        } else {
            max
        }
    }
}

/// Relies on snap's `max_compress_len`: exactly the formula above.
#[verifier::external_body]
fn snap_max_compress_len(input_len: usize) -> (r: usize)
    ensures
        r == spec_max_compress_len(input_len as int),
{
    snap::raw::max_compress_len(input_len)
}

/// Relies on snap's `Encoder::new`.
#[verifier::external_body]
fn snap_encoder_new() -> snap::raw::Encoder {
    snap::raw::Encoder::new()
}

/// Relies on snap's `Decoder::new`.
#[verifier::external_body]
fn snap_decoder_new() -> snap::raw::Decoder {
    snap::raw::Decoder::new()
}

/// Relies on snap's `decompress_len`: reads the header's uncompressed
/// length; errors exactly when the header does not parse. The header of a
/// conforming compression announces the original length.
#[verifier::external_body]
fn snap_decompress_len(input: &[u8]) -> (r: Result<usize, snap::Error>)
    ensures
        match r {
            Ok(n) => snap_len_of(input@) == Some(n as nat) && forall|s: Seq<u8>|
                input@ == snap_compressed(s) ==> n == s.len(),
            Err(_) => snap_len_of(input@) is None && forall|s: Seq<u8>|
                input@ != snap_compressed(s),
        },
{
    snap::raw::decompress_len(input)
}

/// Relies on snap's `Encoder::compress`: compresses `input` into
/// `output[offset..]`. It succeeds exactly when the input is small enough
/// and the room from `offset` is at least `max_compress_len`; it errors
/// before writing anything; on success the compressed image stands at
/// `offset` and the bytes before `offset` are untouched.
#[verifier::external_body]
fn snap_compress_into(
    enc: &mut snap::raw::Encoder,
    input: &[u8],
    output: &mut Vec<u8>,
    offset: usize,
) -> (r: Result<usize, snap::Error>)
    requires
        offset <= old(output)@.len(),
    ensures
        final(output)@.len() == old(output)@.len(),
        final(output)@.subrange(0, offset as int) == old(output)@.subrange(0, offset as int),
        match r {
            Ok(n) => offset + n <= final(output)@.len() && snap_compressed(input@).len() == n
                && final(output)@.subrange(offset as int, offset + n) == snap_compressed(input@),
            Err(_) => final(output)@ == old(output)@,
        },
        r is Ok <==> (spec_max_compress_len(input@.len() as int) != 0 && old(output)@.len()
            - offset >= spec_max_compress_len(input@.len() as int)),
{
    enc.compress(input, &mut output[offset..])
}

/// Relies on snap's `Decoder::decompress`: decompresses `input` into
/// `output[offset..]`. For input produced by a conforming compressor, with
/// room for the announced length, it succeeds and writes back the original
/// bytes; the bytes before `offset` are untouched either way.
#[verifier::external_body]
fn snap_decompress_into(
    dec: &mut snap::raw::Decoder,
    input: &[u8],
    output: &mut Vec<u8>,
    offset: usize,
) -> (r: Result<usize, snap::Error>)
    requires
        offset <= old(output)@.len(),
    ensures
        final(output)@.len() == old(output)@.len(),
        final(output)@.subrange(0, offset as int) == old(output)@.subrange(0, offset as int),
        match r {
            Ok(n) => offset + n <= final(output)@.len() && snap_len_of(input@) == Some(n as nat)
                && final(output)@.subrange(offset + n, final(output)@.len() as int) == old(
                output,
            )@.subrange(offset + n, old(output)@.len() as int) && (forall|s: Seq<u8>|
                input@ == snap_compressed(s) ==> final(output)@.subrange(offset as int, offset + n)
                    == s),
            Err(_) => true,
        },
        forall|s: Seq<u8>|
            input@ == snap_compressed(s) && offset + s.len() <= old(output)@.len() ==> r is Ok,
{
    dec.decompress(input, &mut output[offset..])
}

/// The snappy codec: one reusable encoder and decoder pair.
pub struct SnappyCodec {
    encoder: snap::raw::Encoder,
    decoder: snap::raw::Decoder,
}

impl SnappyCodec {
    pub fn new() -> SnappyCodec {
        SnappyCodec { encoder: snap_encoder_new(), decoder: snap_decoder_new() }
    }

    /// Compresses `input_buf` and appends the compressed image to
    /// `output_buf`. Succeeds exactly when snap accepts the input size; the
    /// scratch bytes grown beyond the image are trimmed on success, and on
    /// failure the buffer keeps the zero padding the attempt grew it by,
    /// as the resize happens before the codec rejects the input.
    pub fn compress(&mut self, input_buf: &[u8], output_buf: &mut Vec<u8>) -> (r: Result<
        (),
        crate::errors::EngineError,
    >)
        ensures
            match r {
                Ok(_) => final(output_buf)@ == old(output_buf)@ + snap_compressed(input_buf@),
                Err(_) => final(output_buf)@ == old(output_buf)@,
            },
            r is Ok <==> (spec_max_compress_len(input_buf@.len() as int) != 0 && old(output_buf)@.len()
                + spec_max_compress_len(input_buf@.len() as int) <= usize::MAX),
    {
        let output_buf_len = output_buf.len();
        let required_len = snap_max_compress_len(input_buf.len());
        if usize::MAX - output_buf_len < required_len {
            return Err(crate::errors::EngineError::IndexCorrupt { msg: String::new() });
        }
        output_buf.resize(output_buf_len + required_len, 0);
        proof {
            assert(output_buf@ =~= old(output_buf)@ + Seq::<u8>::new(
                spec_max_compress_len(input_buf@.len() as int) as nat,
                |i: int| 0u8,
            ));
        }
        match snap_compress_into(&mut self.encoder, input_buf, output_buf, output_buf_len) {
            Ok(n) => {
                output_buf.truncate(output_buf_len + n);
                proof {
                    assert(output_buf@ =~= old(output_buf)@ + snap_compressed(input_buf@));
                }
                Ok(())
            },
            Err(_e) => {
                proof {
                    assert(spec_max_compress_len(input_buf@.len() as int) == 0);
                    assert(output_buf@ =~= old(output_buf)@);
                }
                Err(crate::errors::EngineError::IndexCorrupt { msg: String::new() })
            },
        }
    }

    /// Decompresses `input_buf` and appends the recovered bytes to
    /// `output_buf`, allocating exactly `uncompress_size` when the caller
    /// knows it and the header's announced length otherwise. For input
    /// produced by a conforming compressor, with the allocated room
    /// sufficient, the original bytes come back.
    pub fn decompress(
        &mut self,
        input_buf: &[u8],
        output_buf: &mut Vec<u8>,
        uncompress_size: Option<usize>,
    ) -> (r: Result<usize, crate::errors::EngineError>)
        ensures
            match r {
                Ok(n) => final(output_buf)@.len() == old(output_buf)@.len() + (match uncompress_size {
                    Some(size) => size,
                    None => n,
                }) && (forall|s: Seq<u8>|
                    input_buf@ == snap_compressed(s) ==> final(output_buf)@ == old(output_buf)@
                        + s + Seq::<u8>::new(
                        (final(output_buf)@.len() - old(output_buf)@.len() - s.len()) as nat,
                        |i: int| 0u8,
                    ) && n == s.len()),
                Err(_) => true,
            },
            forall|s: Seq<u8>|
                input_buf@ == snap_compressed(s) && (match uncompress_size {
                    Some(size) => size >= s.len() && old(output_buf)@.len() + size <= usize::MAX,
                    None => old(output_buf)@.len() + s.len() <= usize::MAX,
                }) ==> r is Ok,
    {
        let len = match uncompress_size {
            Some(size) => size,
            None => match snap_decompress_len(input_buf) {
                Ok(n) => n,
                Err(_e) => {
                    return Err(crate::errors::EngineError::IndexCorrupt { msg: String::new() });
                },
            },
        };
        let offset = output_buf.len();
        if usize::MAX - offset < len {
            return Err(crate::errors::EngineError::IndexCorrupt { msg: String::new() });
        }
        output_buf.resize(offset + len, 0);
        let ghost mid = output_buf@;
        proof {
            assert(mid =~= old(output_buf)@ + Seq::<u8>::new(len as nat, |i: int| 0u8));
        }
        match snap_decompress_into(&mut self.decoder, input_buf, output_buf, offset) {
            Ok(n) => {
                proof {
                    assert forall|s: Seq<u8>|
                        input_buf@ == snap_compressed(s) implies output_buf@ == old(output_buf)@ + s
                        + Seq::<u8>::new(
                        (output_buf@.len() - old(output_buf)@.len() - s.len()) as nat,
                        |i: int| 0u8,
                    ) && n == s.len() by {
                        assert(output_buf@.subrange(offset as int, offset + n as int) == s);
                        let target = old(output_buf)@ + s + Seq::<u8>::new(
                            (output_buf@.len() - old(output_buf)@.len() - s.len()) as nat,
                            |i: int| 0u8,
                        );
                        assert forall|j: int|
                            0 <= j < output_buf@.len() implies output_buf@[j] == target[j] by {
                            if j < offset {
                                assert(output_buf@.subrange(0, offset as int)[j] == output_buf@[j]);
                                assert(mid.subrange(0, offset as int)[j] == mid[j]);
                            } else if j < offset + n {
                                assert(output_buf@.subrange(offset as int, offset + n as int)[j
                                    - offset] == output_buf@[j]);
                            } else {
                                assert(output_buf@.subrange(
                                    offset + n as int,
                                    output_buf@.len() as int,
                                )[j - offset - n] == output_buf@[j]);
                                assert(mid.subrange(offset + n as int, mid.len() as int)[j - offset
                                    - n] == mid[j]);
                            }
                        }
                        assert(output_buf@ =~= target);
                    }
                }
                Ok(n)
            },
            Err(_e) => Err(crate::errors::EngineError::IndexCorrupt { msg: String::new() }),
        }
    }
}

} // verus!
