//! permessage-deflate compression (RFC 7692), on top of `noflate`'s
//! streaming DEFLATE encoder and decoder.

use vstd::prelude::*;

use noflate::deflate::{Decoder, Encoder};

use crate::error::ErrorKind;
use crate::text::{concat_str, decimal, u64_to_decimal};
use crate::extension::PerMessageDeflateConfig;

verus! {

// ---------------------------------------------------------------------------
// Outside types and calls
// ---------------------------------------------------------------------------

#[verifier::external_type_specification]
#[verifier::external_body]
pub struct ExEncoder(noflate::deflate::Encoder);

#[verifier::external_type_specification]
#[verifier::external_body]
pub struct ExDecoder(noflate::deflate::Decoder);

/// The compressed bytes an encoder holds that have not been consumed yet.
pub uninterp spec fn encoder_pending(e: Encoder) -> Seq<u8>;

/// The compressed bytes an encoder has handed out (`advance`) since it was
/// made.
pub uninterp spec fn encoder_taken(e: Encoder) -> Seq<u8>;

/// The messages an encoder has compressed since it was made, each closed by a
/// sync flush, with whether its history was dropped after it.
pub uninterp spec fn encoder_messages(e: Encoder) -> Seq<(Seq<u8>, bool)>;

/// The bytes fed to an encoder since its last sync flush.
pub uninterp spec fn encoder_unflushed(e: Encoder) -> Seq<u8>;

/// Whether an encoder has emitted its final block (`Encoder::finish`).
pub uninterp spec fn encoder_finished(e: Encoder) -> bool;

/// The DEFLATE stream a new `Encoder` emits when, for each `(m, reset)` of
/// `messages` in turn, it is fed `m`, sync-flushed, and, when `reset`, has
/// its history dropped.
pub uninterp spec fn deflate_stream(messages: Seq<(Seq<u8>, bool)>) -> Seq<u8>;

/// The decompressed bytes a decoder holds that have not been consumed yet.
pub uninterp spec fn decoder_pending(d: Decoder) -> Seq<u8>;

/// The decompressed bytes a decoder has handed out (`advance`) since it was
/// made.
pub uninterp spec fn decoder_taken(d: Decoder) -> Seq<u8>;

/// The non-empty byte strings fed to a decoder since it was made, in order.
pub uninterp spec fn decoder_chunks(d: Decoder) -> Seq<Seq<u8>>;

/// Whether a decoder's last `feed` stopped because 64 KiB of output were
/// waiting, rather than for want of input or at the end of the stream.
pub uninterp spec fn decoder_suspended(d: Decoder) -> bool;

/// Whether every non-empty byte string was fed to a decoder while it was not
/// suspended, with its output drained.
pub uninterp spec fn decoder_regular(d: Decoder) -> bool;

/// Whether a `feed` of a decoder has failed; feeding it again panics.
pub uninterp spec fn decoder_failed(d: Decoder) -> bool;

/// What a new `Decoder` produces when each of `chunks` is fed in turn and,
/// after its output is drained, decoding is resumed until it stops for want
/// of input or at the end of the stream: `None` when one of these feeds
/// fails, otherwise all the bytes produced.
pub uninterp spec fn inflate(chunks: Seq<Seq<u8>>) -> Option<Seq<u8>>;

/// The bytes of `messages`, one after the other.
pub open spec fn messages_text(messages: Seq<(Seq<u8>, bool)>) -> Seq<u8>
    decreases messages.len(),
{
    if messages.len() == 0 {
        Seq::empty()
    } else {
        messages_text(messages.drop_last()) + messages.last().0
    }
}

/// Whether no byte string of `xs` is empty.
pub open spec fn chunks_nonempty(xs: Seq<Seq<u8>>) -> bool {
    forall|i: int| 0 <= i < xs.len() ==> #[trigger] xs[i].len() > 0
}

/// How many of `messages` come before the last drop of the history: the
/// messages from there on share one compression context.
pub open spec fn context_start(messages: Seq<(Seq<u8>, bool)>) -> int
    decreases messages.len(),
{
    if messages.len() == 0 {
        0
    } else if messages.last().1 {
        messages.len() as int
    } else {
        context_start(messages.drop_last())
    }
}

/// The part of the stream of `messages` emitted since the history was last
/// dropped.
pub open spec fn context_stream(messages: Seq<(Seq<u8>, bool)>) -> Seq<u8> {
    deflate_stream(messages).skip(deflate_stream(messages.take(context_start(messages))).len() as int)
}

/// The bytes of the messages compressed since the history was last dropped.
pub open spec fn context_text(messages: Seq<(Seq<u8>, bool)>) -> Seq<u8> {
    messages_text(messages.skip(context_start(messages)))
}

/// Whether the stream emitted since the history was last dropped, cut into
/// non-empty pieces in any way and fed to a new decoder, decodes to the
/// bytes of the messages it holds.
pub open spec fn stream_round_trips(messages: Seq<(Seq<u8>, bool)>) -> bool {
    forall|xs: Seq<Seq<u8>>|
        chunks_nonempty(xs) && xs.flatten() == context_stream(messages) ==> #[trigger] inflate(xs) == Some(
            context_text(messages),
        )
}

/// Calls `Encoder::new`: a fresh encoder has compressed nothing, holds no
/// output and is not finished.
#[verifier::external_body]
fn encoder_new() -> (r: Encoder)
    ensures
        encoder_pending(r) == Seq::<u8>::empty(),
        encoder_taken(r) == Seq::<u8>::empty(),
        encoder_messages(r) == Seq::<(Seq<u8>, bool)>::empty(),
        encoder_unflushed(r) == Seq::<u8>::empty(),
        deflate_stream(encoder_messages(r)) == Seq::<u8>::empty(),
        stream_round_trips(encoder_messages(r)),
        !encoder_finished(r),
{
    Encoder::new()
}

/// Calls `Encoder::feed`; on failure, the error's text. It fails exactly
/// after `finish` (the blocks it emits use code lengths limited to 15 bits,
/// which the Huffman table builder accepts), and it does not finish the
/// stream. The bytes are added to those awaiting the next sync flush; what
/// it emits before that flush is not stated.
#[verifier::external_body]
fn encoder_feed(e: &mut Encoder, data: &[u8]) -> (r: Result<(), String>)
    ensures
        r is Ok <==> !encoder_finished(*old(e)),
        encoder_finished(*final(e)) == encoder_finished(*old(e)),
        r is Ok ==> encoder_unflushed(*final(e)) == encoder_unflushed(*old(e)) + data@,
        encoder_messages(*final(e)) == encoder_messages(*old(e)),
        encoder_taken(*final(e)) == encoder_taken(*old(e)),
{
    e.feed(data).map_err(|err| err.to_string())
}

/// Calls `Encoder::sync_flush`; on failure, the error's text. Like `feed`,
/// it fails exactly after `finish` and does not finish the stream. It closes
/// the message being fed: everything the encoder has emitted is then the
/// stream of its messages, which ends on a byte boundary with the trailer
/// `00 00 FF FF` (an empty stored block). The stream holds no final block;
/// after `reset_history` the encoder goes on as a new one would (the window
/// is dropped, the bit buffer is empty, and the symbol buffer is cleared for
/// each block), and `noflate`'s decoder, fed the stream since then in
/// pieces, gives the messages back (the use for permessage-deflate its
/// documentation describes).
#[verifier::external_body]
fn encoder_sync_flush(e: &mut Encoder) -> (r: Result<(), String>)
    ensures
        r is Ok <==> !encoder_finished(*old(e)),
        encoder_finished(*final(e)) == encoder_finished(*old(e)),
        encoder_taken(*final(e)) == encoder_taken(*old(e)),
        r is Ok ==> {
            &&& encoder_messages(*final(e)) == encoder_messages(*old(e)).push((encoder_unflushed(*old(e)), false))
            &&& encoder_unflushed(*final(e)) == Seq::<u8>::empty()
            &&& encoder_taken(*final(e)) + encoder_pending(*final(e)) == deflate_stream(encoder_messages(*final(e)))
            &&& encoder_pending(*final(e)).len() >= 4
            &&& encoder_pending(*final(e)).skip(encoder_pending(*final(e)).len() - 4) == deflate_trailer()
            &&& stream_round_trips(encoder_messages(*final(e)))
        },
{
    e.sync_flush().map_err(|err| err.to_string())
}

/// Calls `Encoder::output` and copies the pending output.
#[verifier::external_body]
fn encoder_output(e: &Encoder) -> (r: Vec<u8>)
    ensures
        r@ == encoder_pending(*e),
{
    e.output().to_vec()
}

/// Calls `Encoder::advance`, which marks `n` pending bytes consumed and panics
/// when fewer are pending.
#[verifier::external_body]
fn encoder_advance(e: &mut Encoder, n: usize)
    requires
        n <= encoder_pending(*old(e)).len(),
    ensures
        encoder_pending(*final(e)) == encoder_pending(*old(e)).skip(n as int),
        encoder_taken(*final(e)) == encoder_taken(*old(e)) + encoder_pending(*old(e)).take(n as int),
        encoder_finished(*final(e)) == encoder_finished(*old(e)),
        encoder_messages(*final(e)) == encoder_messages(*old(e)),
        encoder_unflushed(*final(e)) == encoder_unflushed(*old(e)),
{
    e.advance(n)
}

/// Calls `Encoder::reset_history`, which drops the LZ77 window and emits
/// nothing. Here it is called right after a sync flush: the last message is
/// then one after which the history was dropped.
#[verifier::external_body]
fn encoder_reset_history(e: &mut Encoder)
    requires
        encoder_unflushed(*old(e)) == Seq::<u8>::empty(),
        encoder_messages(*old(e)).len() > 0,
    ensures
        encoder_pending(*final(e)) == encoder_pending(*old(e)),
        encoder_taken(*final(e)) == encoder_taken(*old(e)),
        encoder_finished(*final(e)) == encoder_finished(*old(e)),
        encoder_unflushed(*final(e)) == encoder_unflushed(*old(e)),
        encoder_messages(*final(e)) == encoder_messages(*old(e)).update(
            encoder_messages(*old(e)).len() - 1,
            (encoder_messages(*old(e)).last().0, true),
        ),
        deflate_stream(encoder_messages(*final(e))) == deflate_stream(encoder_messages(*old(e))),
        stream_round_trips(encoder_messages(*final(e))),
{
    e.reset_history()
}

/// Calls `Decoder::new`: a fresh decoder has been fed nothing and holds no
/// output.
#[verifier::external_body]
fn decoder_new() -> (r: Decoder)
    ensures
        decoder_pending(r) == Seq::<u8>::empty(),
        decoder_taken(r) == Seq::<u8>::empty(),
        decoder_chunks(r) == Seq::<Seq<u8>>::empty(),
        !decoder_suspended(r),
        decoder_regular(r),
        !decoder_failed(r),
        inflate(decoder_chunks(r)) == Some(decoder_taken(r)),
{
    Decoder::new()
}

/// Calls `Decoder::feed` on a decoder whose output was drained; on failure,
/// the error's text. The decoder runs until it needs more input, reaches the
/// end of the stream, or holds 64 KiB of output (then it is suspended, and
/// `feed(&[])` resumes it). For a decoder fed regularly: a failure means no
/// continuation of the chunks fed decodes; what it has produced so far begins
/// every continuation's decoding; and when it is not suspended, it has
/// produced exactly the decoding of the chunks fed.
#[verifier::external_body]
fn decoder_feed(d: &mut Decoder, data: &[u8]) -> (r: Result<(), String>)
    requires
        !decoder_failed(*old(d)),
        decoder_pending(*old(d)) == Seq::<u8>::empty(),
    ensures
        decoder_chunks(*final(d)) == if data@.len() == 0 {
            decoder_chunks(*old(d))
        } else {
            decoder_chunks(*old(d)).push(data@)
        },
        decoder_taken(*final(d)) == decoder_taken(*old(d)),
        decoder_failed(*final(d)) == (r is Err),
        decoder_regular(*final(d)) == (decoder_regular(*old(d)) && (data@.len() == 0 || !decoder_suspended(
            *old(d),
        ))),
        r is Ok && decoder_pending(*final(d)).len() < 65536 ==> !decoder_suspended(*final(d)),
        decoder_regular(*final(d)) && r is Err ==> forall|more: Seq<Seq<u8>>|
            #[trigger] inflate(decoder_chunks(*final(d)) + more) is None,
        decoder_regular(*final(d)) && r is Ok ==> forall|more: Seq<Seq<u8>>|
            #[trigger] inflate(decoder_chunks(*final(d)) + more) matches Some(o) ==> o.take(
                (decoder_taken(*final(d)) + decoder_pending(*final(d))).len() as int,
            ) == decoder_taken(*final(d)) + decoder_pending(*final(d)) && o.len() >= (decoder_taken(*final(d))
                + decoder_pending(*final(d))).len(),
        decoder_regular(*final(d)) && r is Ok && !decoder_suspended(*final(d)) ==> inflate(
            decoder_chunks(*final(d)),
        ) == Some(decoder_taken(*final(d)) + decoder_pending(*final(d))),
{
    d.feed(data).map_err(|err| err.to_string())
}

/// Calls `Decoder::output` and copies the pending output.
#[verifier::external_body]
fn decoder_output(d: &Decoder) -> (r: Vec<u8>)
    ensures
        r@ == decoder_pending(*d),
{
    d.output().to_vec()
}

/// Calls `Decoder::advance`, which marks `n` pending bytes consumed and panics
/// when fewer are pending.
#[verifier::external_body]
fn decoder_advance(d: &mut Decoder, n: usize)
    requires
        n <= decoder_pending(*old(d)).len(),
    ensures
        decoder_pending(*final(d)) == decoder_pending(*old(d)).skip(n as int),
        decoder_taken(*final(d)) == decoder_taken(*old(d)) + decoder_pending(*old(d)).take(n as int),
        decoder_chunks(*final(d)) == decoder_chunks(*old(d)),
        decoder_suspended(*final(d)) == decoder_suspended(*old(d)),
        decoder_regular(*final(d)) == decoder_regular(*old(d)),
        decoder_failed(*final(d)) == decoder_failed(*old(d)),
{
    d.advance(n)
}

// ---------------------------------------------------------------------------
// Compressor / decompressor
// ---------------------------------------------------------------------------

/// The four bytes a sync flush ends with (RFC 7692 Section 7.2.1).
pub open spec fn deflate_trailer() -> Seq<u8> {
    seq![0x00u8, 0x00u8, 0xFFu8, 0xFFu8]
}

/// The reason given when a message inflates past `max` bytes.
pub open spec fn size_limit_text(max: nat) -> Seq<char> {
    "decompressed size exceeds maximum limit of "@ + decimal(max) + " bytes"@
}

/// Input chunk size fed to the decoder, so the output limit is checked often.
pub const DECOMPRESS_FEED_CHUNK: usize = 8192;

/// The byte strings a received message is fed to the decoder as: the
/// message in chunks of [`DECOMPRESS_FEED_CHUNK`] bytes, then the trailer
/// (RFC 7692 Section 7.2.2).
pub open spec fn message_chunks(data: Seq<u8>) -> Seq<Seq<u8>>
    decreases data.len(),
{
    if data.len() == 0 {
        seq![deflate_trailer()]
    } else if data.len() <= DECOMPRESS_FEED_CHUNK {
        seq![data, deflate_trailer()]
    } else {
        seq![data.take(DECOMPRESS_FEED_CHUNK as int)] + message_chunks(data.skip(DECOMPRESS_FEED_CHUNK as int))
    }
}

/// The pieces a received message is fed as are not empty, and together they
/// are the message followed by the trailer.
pub proof fn lemma_message_chunks(data: Seq<u8>)
    ensures
        chunks_nonempty(message_chunks(data)),
        message_chunks(data).flatten() == data + deflate_trailer(),
    decreases data.len(),
{
    let t = deflate_trailer();
    if data.len() == 0 {
        seq![t].lemma_flatten_one_element();
        assert(seq![t].first() == t);
        assert(data + t =~= t);
    } else if data.len() <= DECOMPRESS_FEED_CHUNK {
        let cs = seq![data, t];
        assert(cs.drop_first() =~= seq![t]);
        seq![t].lemma_flatten_one_element();
        assert(seq![t].first() == t);
        assert(cs.first() == data);
        assert(cs.flatten() == cs.first() + cs.drop_first().flatten());
        assert(cs.flatten() =~= data + t);
    } else {
        let head = data.take(DECOMPRESS_FEED_CHUNK as int);
        let tail = data.skip(DECOMPRESS_FEED_CHUNK as int);
        lemma_message_chunks(tail);
        vstd::seq_lib::lemma_flatten_concat(seq![head], message_chunks(tail));
        seq![head].lemma_flatten_one_element();
        assert(seq![head].first() == head);
        assert(head + (tail + t) =~= data + t);
        assert forall|i: int| 0 <= i < message_chunks(data).len() implies #[trigger] message_chunks(data)[i].len() > 0 by {
            if i > 0 {
                assert(message_chunks(data)[i] == message_chunks(tail)[i - 1]);
            }
        }
    }
}

/// In a history where the context is dropped after every message or after
/// none, it starts at the end or at the beginning, and the stream before it
/// is a prefix of the whole stream.
proof fn lemma_context_grows(m: Seq<(Seq<u8>, bool)>, data: Seq<u8>, resets: bool)
    requires
        forall|j: int| 0 <= j < m.len() ==> (#[trigger] m[j]).1 == resets,
        deflate_stream(Seq::<(Seq<u8>, bool)>::empty()) == Seq::<u8>::empty(),
    ensures
        context_start(m) == (if resets { m.len() as int } else { 0 }),
        deflate_stream(m.take(context_start(m))).len() <= deflate_stream(m).len(),
    decreases m.len(),
{
    if m.len() > 0 {
        assert(m.last() == m[m.len() - 1]);
        if !resets {
            let p = m.drop_last();
            assert forall|j: int| 0 <= j < p.len() implies (#[trigger] p[j]).1 == resets by {
                assert(p[j] == m[j]);
            }
            lemma_context_grows(p, data, resets);
        }
    }
    if context_start(m) == 0 {
        assert(m.take(0) =~= Seq::<(Seq<u8>, bool)>::empty());
    } else {
        assert(m.take(m.len() as int) =~= m);
    }
}

/// The compressed form of the last of `messages`: the part of the stream
/// its sync flush closed, without the trailer.
pub open spec fn compressed_message(messages: Seq<(Seq<u8>, bool)>) -> Seq<u8> {
    let all = deflate_stream(messages);
    let before = deflate_stream(messages.drop_last());
    all.subrange(before.len() as int, all.len() - 4)
}

/// What decompressing `data` gives after `received` was fed and `inflated`
/// handed out: `None` when the stream does not decode, otherwise the bytes
/// that follow `inflated`.
pub open spec fn inflated_message(received: Seq<Seq<u8>>, inflated: Seq<u8>, data: Seq<u8>) -> Option<Seq<u8>> {
    match inflate(received + message_chunks(data)) {
        Some(o) => Some(o.skip(inflated.len() as int)),
        None => None,
    }
}

/// permessage-deflate compressor.
pub struct Compressor {
    encoder: Encoder,
    reset_after_message: bool,
}

/// permessage-deflate decompressor.
pub struct Decompressor {
    decoder: Decoder,
    reset_after_message: bool,
}

fn push_all(dst: &mut Vec<u8>, src: &[u8])
    ensures
        final(dst)@ == old(dst)@ + src@,
{
    let ghost start = dst@;
    let mut i: usize = 0;
    while i < src.len()
        invariant
            i <= src@.len(),
            dst@ == start + src@.take(i as int),
        decreases src@.len() - i,
    {
        dst.push(src[i]);
        i = i + 1;
        assert(dst@ =~= start + src@.take(i as int));
    }
    assert(src@.take(src@.len() as int) =~= src@);
}

impl Compressor {
    /// The encoder never finishes its stream, and between messages it has
    /// handed out everything it emitted: the stream of the messages so far.
    #[verifier::type_invariant]
    spec fn between_messages(self) -> bool {
        &&& !encoder_finished(self.encoder)
        &&& encoder_unflushed(self.encoder) == Seq::<u8>::empty()
        &&& encoder_pending(self.encoder) == Seq::<u8>::empty()
        &&& encoder_taken(self.encoder) == deflate_stream(encoder_messages(self.encoder))
        &&& forall|j: int|
            0 <= j < encoder_messages(self.encoder).len() ==> (#[trigger] encoder_messages(self.encoder)[j]).1
                == self.reset_after_message
    }

    /// Whether the compression context is dropped after each message.
    pub closed spec fn resets(&self) -> bool {
        self.reset_after_message
    }

    /// The messages compressed so far, with whether the context was dropped
    /// after each.
    pub closed spec fn history(&self) -> Seq<(Seq<u8>, bool)> {
        encoder_messages(self.encoder)
    }

    /// A compressor for our side: a client follows `client_no_context_takeover`,
    /// a server `server_no_context_takeover`. The encoder always uses a 32 KiB
    /// window (15 bits); the handshake code refuses agreements on less.
    pub fn new(config: &PerMessageDeflateConfig, is_client: bool) -> (r: Compressor)
        ensures
            r.history() == Seq::<(Seq<u8>, bool)>::empty(),
            r.resets() == (if is_client {
                config.client_no_context_takeover
            } else {
                config.server_no_context_takeover
            }),
    {
        let reset_after_message = if is_client {
            config.client_no_context_takeover
        } else {
            config.server_no_context_takeover
        };
        Compressor { encoder: encoder_new(), reset_after_message }
    }

    /// Compresses one message and removes the trailing `00 00 FF FF`
    /// (RFC 7692 Section 7.2.1): the result is the part of the DEFLATE stream
    /// this message adds, without the trailer. Compression always succeeds
    /// (the stream is never finished). A receiver that was fed exactly the
    /// stream emitted since the context was last dropped decodes the result
    /// back to `data`.
    pub fn compress(&mut self, data: &[u8]) -> (r: Result<Vec<u8>, crate::error::Error>)
        ensures
            final(self).resets() == old(self).resets(),
            final(self).history() == old(self).history().push((data@, old(self).resets())),
            r matches Ok(v) && deflate_stream(final(self).history()) == deflate_stream(old(self).history())
                + v@ + deflate_trailer() && v@ == compressed_message(final(self).history()),
            r is Ok ==> forall|received: Seq<Seq<u8>>|
                chunks_nonempty(received) && received.flatten() == context_stream(old(self).history())
                    ==> #[trigger] inflated_message(received, context_text(old(self).history()), r->Ok_0@)
                    == Some(data@),
    {
        proof {
            use_type_invariant(&*self);
        }
        let mut encoder = encoder_new();
        std::mem::swap(&mut encoder, &mut self.encoder);
        let ghost m0 = encoder_messages(encoder);
        let ghost s0 = deflate_stream(m0);
        match encoder_feed(&mut encoder, data) {
            Ok(()) => {},
            Err(m) => {
                let reason = concat_str("compression failed: ", m.as_str());
                return Err(crate::error::Error::with_reason(ErrorKind::InvalidData, reason));
            },
        }
        assert(encoder_unflushed(encoder) =~= data@);
        match encoder_sync_flush(&mut encoder) {
            Ok(()) => {},
            Err(m) => {
                let reason = concat_str("compression flush failed: ", m.as_str());
                return Err(crate::error::Error::with_reason(ErrorKind::InvalidData, reason));
            },
        }
        let ghost m1 = encoder_messages(encoder);
        proof {
            assert(m1 =~= m0.push((data@, false)));
        }
        let mut out = encoder_output(&encoder);
        let ghost produced = out@;
        encoder_advance(&mut encoder, out.len());
        assert(encoder_pending(encoder) =~= Seq::<u8>::empty());
        assert(produced.take(produced.len() as int) =~= produced);
        let n = out.len();
        assert(produced.skip(n - 4) == deflate_trailer());
        assert(produced[n - 4] == produced.skip(n - 4)[0]);
        assert(produced[n - 3] == produced.skip(n - 4)[1]);
        assert(produced[n - 2] == produced.skip(n - 4)[2]);
        assert(produced[n - 1] == produced.skip(n - 4)[3]);
        out.truncate(n - 4);
        assert(produced =~= out@ + deflate_trailer());
        if self.reset_after_message {
            encoder_reset_history(&mut encoder);
        }
        let ghost m2 = encoder_messages(encoder);
        proof {
            assert(m2 =~= m0.push((data@, self.reset_after_message)));
            assert(m2.drop_last() =~= m0);
            assert(deflate_stream(m2) == deflate_stream(m1));
            assert(deflate_stream(m2) =~= s0 + out@ + deflate_trailer());
            assert(deflate_stream(m2).subrange(s0.len() as int, deflate_stream(m2).len() - 4) =~= out@);
            assert forall|j: int| 0 <= j < m2.len() implies (#[trigger] m2[j]).1 == self.reset_after_message by {
                if j < m0.len() {
                    assert(m2[j] == m0[j]);
                }
            }
            lemma_context_grows(m0, data@, self.reset_after_message);
            let k = context_start(m0);
            assert(m1.drop_last() =~= m0);
            assert(context_start(m1) == k);
            assert(m1.skip(k) =~= m0.skip(k).push((data@, false)));
            assert(m1.skip(k).drop_last() =~= m0.skip(k));
            assert(context_text(m1) == context_text(m0) + data@);
            assert(m1.take(k) =~= m0.take(k));
            assert(context_stream(m1) =~= context_stream(m0) + out@ + deflate_trailer());
            assert forall|received: Seq<Seq<u8>>|
                chunks_nonempty(received) && received.flatten() == context_stream(m0) implies #[trigger] inflated_message(
                    received,
                    context_text(m0),
                    out@,
                ) == Some(data@) by {
                let xs = received + message_chunks(out@);
                lemma_message_chunks(out@);
                vstd::seq_lib::lemma_flatten_concat(received, message_chunks(out@));
                assert(xs.flatten() =~= context_stream(m1));
                assert forall|i: int| 0 <= i < xs.len() implies #[trigger] xs[i].len() > 0 by {
                    if i < received.len() {
                        assert(xs[i] == received[i]);
                    } else {
                        assert(xs[i] == message_chunks(out@)[i - received.len()]);
                    }
                }
                assert(inflate(xs) == Some(context_text(m1)));
                assert(context_text(m1).skip(context_text(m0).len() as int) =~= data@);
            }
        }
        std::mem::swap(&mut encoder, &mut self.encoder);
        Ok(out)
    }
}

impl Decompressor {
    /// Between messages the decoder has been fed regularly, has not failed,
    /// is not suspended, and has handed out exactly the decoding of what it
    /// was fed.
    #[verifier::type_invariant]
    spec fn between_messages(self) -> bool {
        &&& !decoder_failed(self.decoder)
        &&& decoder_regular(self.decoder)
        &&& !decoder_suspended(self.decoder)
        &&& decoder_pending(self.decoder) == Seq::<u8>::empty()
        &&& inflate(decoder_chunks(self.decoder)) == Some(decoder_taken(self.decoder))
    }

    /// Whether the decompression context is dropped after each message.
    pub closed spec fn resets(&self) -> bool {
        self.reset_after_message
    }

    /// The byte strings fed to the decoder since its context was last
    /// dropped.
    pub closed spec fn received(&self) -> Seq<Seq<u8>> {
        decoder_chunks(self.decoder)
    }

    /// The bytes decompressed since the context was last dropped.
    pub closed spec fn inflated(&self) -> Seq<u8> {
        decoder_taken(self.decoder)
    }

    /// A decompressor for what the peer sends: a client follows
    /// `server_no_context_takeover`, a server `client_no_context_takeover`.
    pub fn new(config: &PerMessageDeflateConfig, is_client: bool) -> (r: Decompressor)
        ensures
            r.received() == Seq::<Seq<u8>>::empty(),
            r.inflated() == Seq::<u8>::empty(),
            r.resets() == (if is_client {
                config.server_no_context_takeover
            } else {
                config.client_no_context_takeover
            }),
    {
        let reset_after_message = if is_client {
            config.server_no_context_takeover
        } else {
            config.client_no_context_takeover
        };
        Decompressor { decoder: decoder_new(), reset_after_message }
    }

    /// Feeds one non-empty chunk and drains the decoder into `out`, resuming
    /// it while it stops with 64 KiB waiting, and refusing to let `out` grow
    /// past `max_size`.
    fn feed_chunk(decoder: &mut Decoder, chunk: &[u8], out: &mut Vec<u8>, max_size: usize, Ghost(base): Ghost<Seq<u8>>) -> (r: Result<(), crate::error::Error>)
        requires
            chunk@.len() > 0,
            !decoder_failed(*old(decoder)),
            decoder_regular(*old(decoder)),
            !decoder_suspended(*old(decoder)),
            decoder_pending(*old(decoder)) == Seq::<u8>::empty(),
            decoder_taken(*old(decoder)) == base + old(out)@,
            old(out)@.len() <= max_size,
        ensures
            r is Ok ==> {
                &&& !decoder_failed(*final(decoder))
                &&& decoder_regular(*final(decoder))
                &&& !decoder_suspended(*final(decoder))
                &&& decoder_pending(*final(decoder)) == Seq::<u8>::empty()
                &&& decoder_chunks(*final(decoder)) == decoder_chunks(*old(decoder)).push(chunk@)
                &&& decoder_taken(*final(decoder)) == base + final(out)@
                &&& inflate(decoder_chunks(*final(decoder))) == Some(decoder_taken(*final(decoder)))
                &&& final(out)@.len() <= max_size
            },
            r matches Err(e) ==> e.kind == ErrorKind::InvalidData && e.close_code is None,
            r matches Err(e) ==> {
                ||| e.reason@ == size_limit_text(max_size as nat) && forall|more: Seq<Seq<u8>>|
                    #[trigger] inflate(decoder_chunks(*old(decoder)).push(chunk@) + more) matches Some(o) ==> o.len()
                        > base.len() + max_size
                ||| (exists|m: Seq<char>| e.reason@ == "decompression failed: "@ + m) && forall|more: Seq<Seq<u8>>|
                    #[trigger] inflate(decoder_chunks(*old(decoder)).push(chunk@) + more) is None
            },
    {
        let ghost c1 = decoder_chunks(*decoder).push(chunk@);
        match decoder_feed(decoder, chunk) {
            Ok(()) => {},
            Err(m) => {
                let reason = concat_str("decompression failed: ", m.as_str());
                let e = crate::error::Error::with_reason(ErrorKind::InvalidData, reason);
                proof {
                    assert(e.reason@ == "decompression failed: "@ + m@);
                    assert(decoder_chunks(*decoder) == c1);
                    assert(forall|more: Seq<Seq<u8>>| #[trigger] inflate(c1 + more) is None);
                }
                return Err(e);
            },
        }
        loop
            invariant
                c1 == decoder_chunks(*old(decoder)).push(chunk@),
                !decoder_failed(*decoder),
                decoder_regular(*decoder),
                decoder_chunks(*decoder) == c1,
                decoder_taken(*decoder) == base + out@,
                out@.len() <= max_size,
                decoder_pending(*decoder).len() < 65536 ==> !decoder_suspended(*decoder),
                forall|more: Seq<Seq<u8>>|
                    #[trigger] inflate(c1 + more) matches Some(o) ==> o.take(
                        (decoder_taken(*decoder) + decoder_pending(*decoder)).len() as int,
                    ) == decoder_taken(*decoder) + decoder_pending(*decoder) && o.len() >= (decoder_taken(*decoder)
                        + decoder_pending(*decoder)).len(),
                !decoder_suspended(*decoder) ==> inflate(c1) == Some(decoder_taken(*decoder) + decoder_pending(*decoder)),
            decreases max_size - out@.len(),
        {
            let produced = decoder_output(decoder);
            if produced.len() > max_size - out.len() {
                let a = concat_str(
                    "decompressed size exceeds maximum limit of ",
                    u64_to_decimal(max_size as u64).as_str(),
                );
                let reason = concat_str(a.as_str(), " bytes");
                proof {
                    assert forall|more: Seq<Seq<u8>>|
                        #[trigger] inflate(c1 + more) is Some implies inflate(c1 + more)->0.len()
                        > base.len() + max_size by {
                        assert((decoder_taken(*decoder) + decoder_pending(*decoder)).len() == base.len() + out@.len()
                            + produced@.len());
                    }
                }
                return Err(crate::error::Error::with_reason(ErrorKind::InvalidData, reason));
            }
            let ghost taken0 = decoder_taken(*decoder);
            let ghost pending0 = decoder_pending(*decoder);
            push_all(out, produced.as_slice());
            decoder_advance(decoder, produced.len());
            proof {
                assert(pending0.take(pending0.len() as int) =~= pending0);
                assert(decoder_pending(*decoder) =~= Seq::<u8>::empty());
                assert(decoder_taken(*decoder) + decoder_pending(*decoder) =~= taken0 + pending0);
                assert(decoder_taken(*decoder) =~= base + out@);
            }
            if produced.len() < 65536 {
                return Ok(());
            }
            let empty: [u8; 0] = [];
            match decoder_feed(decoder, empty.as_slice()) {
                Ok(()) => {},
                Err(m) => {
                    let reason = concat_str("decompression failed: ", m.as_str());
                    let e = crate::error::Error::with_reason(ErrorKind::InvalidData, reason);
                    proof {
                        assert(e.reason@ == "decompression failed: "@ + m@);
                        assert(decoder_chunks(*decoder) == c1);
                        assert(forall|more: Seq<Seq<u8>>| #[trigger] inflate(c1 + more) is None);
                    }
                    return Err(e);
                },
            }
        }
    }

    /// Decompresses one message after appending `00 00 FF FF` (RFC 7692
    /// Section 7.2.2). The input is fed in chunks and the output checked after
    /// each one, so a message that would inflate past `max_size` is refused
    /// before more is produced (zip bomb protection); a decoder that stops
    /// with 64 KiB waiting is drained and resumed. The result is the decoding
    /// of the message in the context kept so far; after a failure the context
    /// is dropped.
    pub fn decompress(&mut self, data: &[u8], max_size: usize) -> (r: Result<Vec<u8>, crate::error::Error>)
        ensures
            final(self).resets() == old(self).resets(),
            ({
                let full = inflate(old(self).received() + message_chunks(data@));
                &&& full is None ==> r is Err
                &&& full matches Some(o) ==> (r is Ok <==> o.len() <= old(self).inflated().len() + max_size)
                &&& full matches Some(o) ==> (r matches Ok(v) ==> o == old(self).inflated() + v@)
                &&& full is Some && r is Err ==> (r matches Err(e) && e.reason@ == size_limit_text(max_size as nat))
                &&& r is Ok && !old(self).resets() ==> final(self).received() == old(self).received()
                    + message_chunks(data@) && full == Some(final(self).inflated())
            }),
            r matches Ok(v) ==> v@.len() <= max_size,
            r is Err || old(self).resets() ==> final(self).received() == Seq::<Seq<u8>>::empty()
                && final(self).inflated() == Seq::<u8>::empty(),
            r matches Err(e) ==> e.kind == ErrorKind::InvalidData && e.close_code is None && (
            e.reason@ == size_limit_text(max_size as nat) || exists|m: Seq<char>|
                e.reason@ == "decompression failed: "@ + m),
    {
        proof {
            use_type_invariant(&*self);
        }
        let mut decoder = decoder_new();
        std::mem::swap(&mut decoder, &mut self.decoder);
        let ghost h = decoder_chunks(decoder);
        let ghost t0 = decoder_taken(decoder);
        let ghost all = message_chunks(data@);
        let mut decompressed: Vec<u8> = Vec::new();
        let mut trailer: Vec<u8> = Vec::new();
        trailer.push(0x00);
        trailer.push(0x00);
        trailer.push(0xFF);
        trailer.push(0xFF);
        assert(trailer@ =~= deflate_trailer());
        let mut pos: usize = 0;
        let mut done = false;
        let ghost mut fed: Seq<Seq<u8>> = Seq::empty();
        assert(h + fed =~= h);
        assert(t0 + decompressed@ =~= t0);
        assert(data@.skip(0) =~= data@);
        assert(fed + message_chunks(data@.skip(0)) =~= all);
        while !done
            invariant
                pos <= data@.len(),
                !decoder_failed(decoder),
                decoder_regular(decoder),
                !decoder_suspended(decoder),
                decoder_pending(decoder) == Seq::<u8>::empty(),
                decoder_chunks(decoder) == h + fed,
                decoder_taken(decoder) == t0 + decompressed@,
                inflate(h + fed) == Some(t0 + decompressed@),
                decompressed@.len() <= max_size,
                all == message_chunks(data@),
                h == old(self).received(),
                t0 == old(self).inflated(),
                trailer@ == deflate_trailer(),
                !done ==> fed + message_chunks(data@.skip(pos as int)) == all,
                done ==> fed == all,
                self.reset_after_message == old(self).reset_after_message,
                decoder_chunks(self.decoder) == Seq::<Seq<u8>>::empty(),
                decoder_taken(self.decoder) == Seq::<u8>::empty(),
            decreases data@.len() - pos + (if done { 0int } else { 1int }),
        {
            let ghost rest = data@.skip(pos as int);
            let chunk: &[u8] = if pos < data.len() {
                let end = if data.len() - pos > DECOMPRESS_FEED_CHUNK {
                    pos + DECOMPRESS_FEED_CHUNK
                } else {
                    data.len()
                };
                let c = &data[pos..end];
                proof {
                    assert(c@ =~= rest.take((end - pos) as int));
                    if rest.len() > DECOMPRESS_FEED_CHUNK {
                        assert(rest.skip(DECOMPRESS_FEED_CHUNK as int) =~= data@.skip(end as int));
                        assert(message_chunks(rest) == seq![c@] + message_chunks(data@.skip(end as int)));
                        assert(fed.push(c@) + message_chunks(data@.skip(end as int)) =~= fed + message_chunks(rest));
                    } else {
                        assert(rest.take(rest.len() as int) =~= rest);
                        assert(data@.skip(end as int) =~= Seq::<u8>::empty());
                        assert(message_chunks(Seq::<u8>::empty()) == seq![deflate_trailer()]);
                        assert(fed.push(c@) + message_chunks(data@.skip(end as int)) =~= fed + message_chunks(rest));
                    }
                }
                pos = end;
                c
            } else {
                done = true;
                proof {
                    assert(rest =~= Seq::<u8>::empty());
                    assert(fed.push(deflate_trailer()) =~= fed + message_chunks(rest));
                }
                trailer.as_slice()
            };
            let ghost fed1 = fed.push(chunk@);
            let ghost more = if done { Seq::<Seq<u8>>::empty() } else { message_chunks(data@.skip(pos as int)) };
            proof {
                assert(fed1 + more =~= all);
                assert((h + fed).push(chunk@) + more =~= h + all);
            }
            match Self::feed_chunk(&mut decoder, chunk, &mut decompressed, max_size, Ghost(t0)) {
                Ok(()) => {},
                Err(e) => {
                    proof {
                        assert(inflate((h + fed).push(chunk@) + more) == inflate(h + all));
                        if inflate(h + all) is Some {
                            assert(inflate(h + all)->0.len() > t0.len() + max_size);
                            assert(e.reason@ == size_limit_text(max_size as nat));
                        }
                    }
                    return Err(e);
                },
            }
            proof {
                assert((h + fed).push(chunk@) =~= h + fed1);
                fed = fed1;
            }
        }
        if !self.reset_after_message {
            std::mem::swap(&mut decoder, &mut self.decoder);
        }
        Ok(decompressed)
    }
}


/// The state of a permessage-deflate codec that decides its output: the
/// messages compressed (with whether the context was dropped after each),
/// whether the compressor drops it after each message, the byte strings fed
/// to the decompressor and the bytes it has given since its context was last
/// dropped, and whether it drops the context after each message.
pub struct CodecView {
    pub sent: Seq<(Seq<u8>, bool)>,
    pub compress_resets: bool,
    pub received: Seq<Seq<u8>>,
    pub inflated: Seq<u8>,
    pub decompress_resets: bool,
}

/// A codec that has not handled a message yet.
pub open spec fn fresh_codec(compress_resets: bool, decompress_resets: bool) -> CodecView {
    CodecView {
        sent: Seq::empty(),
        compress_resets,
        received: Seq::empty(),
        inflated: Seq::empty(),
        decompress_resets,
    }
}

/// The codec after compressing `data`.
pub open spec fn codec_after_compress(c: CodecView, data: Seq<u8>) -> CodecView {
    CodecView { sent: c.sent.push((data, c.compress_resets)), ..c }
}

/// The codec after decompressing `data`: the context grows by the message
/// when it is kept and the message decoded; otherwise it is dropped.
pub open spec fn codec_after_decompress(c: CodecView, data: Seq<u8>, ok: bool) -> CodecView {
    if ok && !c.decompress_resets {
        CodecView {
            received: c.received + message_chunks(data),
            inflated: match inflate(c.received + message_chunks(data)) {
                Some(o) => o,
                None => c.inflated,
            },
            ..c
        }
    } else {
        CodecView { received: Seq::empty(), inflated: Seq::empty(), ..c }
    }
}

/// permessage-deflate codec: a compressor and a decompressor with the
/// agreed configuration.
pub struct PerMessageDeflate {
    compressor: Compressor,
    decompressor: Decompressor,
    config: PerMessageDeflateConfig,
}

impl PerMessageDeflate {
    /// The agreed configuration.
    pub closed spec fn spec_config(&self) -> PerMessageDeflateConfig {
        self.config
    }

    /// Whether each direction drops its context after each message: the
    /// compressor's, then the decompressor's.
    pub closed spec fn spec_resets(&self) -> (bool, bool) {
        (self.compressor.resets(), self.decompressor.resets())
    }

    /// The state that decides what the codec produces.
    pub closed spec fn spec_codec(&self) -> CodecView {
        CodecView {
            sent: self.compressor.history(),
            compress_resets: self.compressor.resets(),
            received: self.decompressor.received(),
            inflated: self.decompressor.inflated(),
            decompress_resets: self.decompressor.resets(),
        }
    }

    /// A codec for a client.
    pub fn new_client(config: PerMessageDeflateConfig) -> (r: PerMessageDeflate)
        ensures
            r.spec_config() == config,
            r.spec_resets() == (config.client_no_context_takeover, config.server_no_context_takeover),
            r.spec_codec() == fresh_codec(config.client_no_context_takeover, config.server_no_context_takeover),
    {
        PerMessageDeflate {
            compressor: Compressor::new(&config, true),
            decompressor: Decompressor::new(&config, true),
            config,
        }
    }

    /// A codec for a server.
    pub fn new_server(config: PerMessageDeflateConfig) -> (r: PerMessageDeflate)
        ensures
            r.spec_config() == config,
            r.spec_resets() == (config.server_no_context_takeover, config.client_no_context_takeover),
            r.spec_codec() == fresh_codec(config.server_no_context_takeover, config.client_no_context_takeover),
    {
        PerMessageDeflate {
            compressor: Compressor::new(&config, false),
            decompressor: Decompressor::new(&config, false),
            config,
        }
    }

    /// The agreed configuration.
    pub fn config(&self) -> (r: &PerMessageDeflateConfig)
        ensures
            *r == self.spec_config(),
    {
        &self.config
    }

    /// Compresses one message: the part of the DEFLATE stream it adds,
    /// without the trailer ([`compressed_message`]). A receiver that was fed
    /// exactly the stream emitted since the context was last dropped, and gave
    /// back the messages it holds, decodes it back to `data` (RFC 7692 round
    /// trip).
    pub fn compress(&mut self, data: &[u8]) -> (r: Result<Vec<u8>, crate::error::Error>)
        ensures
            final(self).spec_config() == old(self).spec_config(),
            final(self).spec_resets() == old(self).spec_resets(),
            final(self).spec_codec() == codec_after_compress(old(self).spec_codec(), data@),
            r matches Ok(v) && v@ == compressed_message(final(self).spec_codec().sent) && deflate_stream(
                final(self).spec_codec().sent,
            ) == deflate_stream(old(self).spec_codec().sent) + v@ + deflate_trailer(),
            r is Ok ==> forall|received: Seq<Seq<u8>>|
                chunks_nonempty(received) && received.flatten() == context_stream(old(self).spec_codec().sent)
                    ==> #[trigger] inflated_message(received, context_text(old(self).spec_codec().sent), r->Ok_0@)
                    == Some(data@),
    {
        self.compressor.compress(data)
    }

    /// Decompresses one message, refusing to produce more than `max_size`
    /// bytes: the result is the decoding of the message in the context kept
    /// so far ([`inflated_message`]).
    pub fn decompress(&mut self, data: &[u8], max_size: usize) -> (r: Result<Vec<u8>, crate::error::Error>)
        ensures
            final(self).spec_config() == old(self).spec_config(),
            final(self).spec_resets() == old(self).spec_resets(),
            final(self).spec_codec() == codec_after_decompress(old(self).spec_codec(), data@, r is Ok),
            match inflated_message(old(self).spec_codec().received, old(self).spec_codec().inflated, data@) {
                None => r is Err,
                Some(m) => if m.len() <= max_size {
                    r matches Ok(v) && v@ == m
                } else {
                    r matches Err(e) && e.reason@ == size_limit_text(max_size as nat)
                },
            },
            r matches Err(e) ==> e.kind == ErrorKind::InvalidData && e.close_code is None && (
            e.reason@ == size_limit_text(max_size as nat) || exists|m: Seq<char>|
                e.reason@ == "decompression failed: "@ + m),
    {
        let r = self.decompressor.decompress(data, max_size);
        proof {
            let full = inflate(old(self).spec_codec().received + message_chunks(data@));
            if full is Some && r is Ok {
                assert(full->0.skip(old(self).spec_codec().inflated.len() as int) =~= r->Ok_0@);
            }
        }
        r
    }

    /// Whether a message is worth compressing: at least `threshold` bytes.
    pub fn should_compress(&self, data: &[u8], threshold: usize) -> (r: bool)
        ensures
            r == (data@.len() >= threshold),
    {
        data.len() >= threshold
    }
}

} // verus!
