//! Length-delimited framing: a streaming decoder that turns arbitrary byte
//! chunks into complete payloads, and its inverse, the length-prefix encoder.
//!
//! Every frame on the wire is a 4-byte big-endian length header followed by
//! exactly that many payload bytes. A declared length above
//! `MAX_PACKET_SIZE` is rejected before any body buffer is allocated and
//! poisons the decoder: framing offers no resynchronization point once a
//! bogus length has been consumed.

use vstd::prelude::*;

verus! {

use vstd::arithmetic::div_mod::{
    lemma_fundamental_div_mod,
    lemma_div_denominator,
    lemma_multiply_divide_lt,
    lemma_mod_division_less_than_divisor,
    lemma_div_pos_is_pos,
    lemma_small_mod,
};
use vstd::seq_lib::lemma_flatten_concat;

/// Number of bytes in a frame's length header.
pub const HEAD_LEN: usize = 4;

/// Largest payload a frame may declare, in bytes (1 MiB).
pub const MAX_PACKET_SIZE: usize = 1048576;

/// The value of a 4-byte big-endian length header.
pub open spec fn be32_val(s: Seq<u8>) -> int
    recommends
        s.len() == 4,
{
    s[0] * 0x1000000 + s[1] * 0x10000 + s[2] * 0x100 + s[3]
}

/// The 4-byte big-endian encoding of a length.
pub open spec fn be32_bytes(n: int) -> Seq<u8>
    recommends
        0 <= n < 0x100000000,
{
    seq![
        ((n / 0x1000000) % 0x100) as u8,
        ((n / 0x10000) % 0x100) as u8,
        ((n / 0x100) % 0x100) as u8,
        (n % 0x100) as u8,
    ]
}

/// What a whole byte stream decodes to: the ordered complete payloads and the
/// trailing bytes of an incomplete frame, or nothing at all when some header
/// declares a length above `MAX_PACKET_SIZE`.
pub open spec fn parse_stream(s: Seq<u8>) -> Option<(Seq<Seq<u8>>, Seq<u8>)>
    decreases s.len(),
{
    if s.len() < HEAD_LEN {
        Some((Seq::empty(), s))
    } else {
        let n = be32_val(s.take(HEAD_LEN as int));
        if n > MAX_PACKET_SIZE {
            None
        } else if s.len() < HEAD_LEN + n {
            Some((Seq::empty(), s))
        } else {
            match parse_stream(s.skip(HEAD_LEN + n)) {
                None => None,
                Some((payloads, rest)) => Some(
                    (seq![s.subrange(HEAD_LEN as int, HEAD_LEN + n)] + payloads, rest),
                ),
            }
        }
    }
}

/// Prepends already-emitted payloads to the outcome of parsing the remaining
/// bytes; a poisoned outcome stays poisoned.
pub open spec fn parse_cons(
    emitted: Seq<Seq<u8>>,
    rest: Option<(Seq<Seq<u8>>, Seq<u8>)>,
) -> Option<(Seq<Seq<u8>>, Seq<u8>)> {
    match rest {
        None => None,
        Some((payloads, trailing)) => Some((emitted + payloads, trailing)),
    }
}

/// The byte sequences held by a sequence of byte vectors.
pub open spec fn views_of(s: Seq<Vec<u8>>) -> Seq<Seq<u8>> {
    s.map_values(|v: Vec<u8>| v@)
}

/// A complete frame: the big-endian length header followed by the payload.
pub open spec fn frame_bytes(payload: Seq<u8>) -> Seq<u8>
    recommends
        payload.len() <= MAX_PACKET_SIZE,
{
    be32_bytes(payload.len() as int) + payload
}

/// Framing failure: a header declared a length above `MAX_PACKET_SIZE`.
#[derive(Clone, Copy, Debug, PartialEq, Eq, Structural)]
pub enum FrameError {
    TooLarge,
}

/// Emitting a batch of payloads and then a further batch is the same as
/// emitting their concatenation.
proof fn lemma_parse_cons_assoc(
    a: Seq<Seq<u8>>,
    b: Seq<Seq<u8>>,
    x: Option<(Seq<Seq<u8>>, Seq<u8>)>,
)
    ensures
        parse_cons(a, parse_cons(b, x)) == parse_cons(a + b, x),
{
    match x {
        None => {},
        Some((payloads, rest)) => {
            assert(a + (b + payloads) =~= (a + b) + payloads);
        },
    }
}

/// Copies `src[from..to]` onto the end of `dst`.
pub(crate) fn push_range(dst: &mut Vec<u8>, src: &[u8], from: usize, to: usize)
    requires
        from <= to <= src@.len(),
    ensures
        final(dst)@ == old(dst)@ + src@.subrange(from as int, to as int),
{
    let mut i: usize = from;
    while i < to
        invariant
            from <= i <= to <= src@.len(),
            dst@ == old(dst)@ + src@.subrange(from as int, i as int),
        decreases to - i,
    {
        dst.push(src[i]);
        proof {
            assert(dst@ =~= old(dst)@ + src@.subrange(from as int, i + 1));
        }
        i = i + 1;
    }
    proof {
        assert(dst@ =~= old(dst)@ + src@.subrange(from as int, to as int));
    }
}

/// Reads a complete 4-byte header as a big-endian length.
pub(crate) fn be32_decode(b: &Vec<u8>) -> (n: u32)
    requires
        b@.len() == 4,
    ensures
        n == be32_val(b@),
{
    (b[0] as u32) * 0x1000000 + (b[1] as u32) * 0x10000 + (b[2] as u32) * 0x100 + (b[3] as u32)
}

#[derive(Clone, Copy)]
enum DecodeState {
    /// Accumulating the 4 header bytes.
    ExpectHead,
    /// Header complete; accumulating the declared number of body bytes.
    ExpectBody,
    /// A header declared an oversized length; no recovery is possible.
    Failed,
}

/// Streaming frame decoder: feed it byte chunks as they arrive and collect
/// complete payloads in order. Partial frames are preserved losslessly
/// across calls.
pub struct Decoder {
    state: DecodeState,
    len_buffer: Vec<u8>,
    packet_len: usize,
    packet_buffer: Vec<u8>,
}

impl Decoder {
    /// The decoder is poisoned: an oversized length was seen and the
    /// connection carrying this stream must be torn down.
    pub closed spec fn failed(self) -> bool {
        self.state is Failed
    }

    /// The raw bytes of the partial frame currently buffered: all bytes fed
    /// so far that have not yet been emitted as part of a complete payload.
    pub closed spec fn residual(self) -> Seq<u8> {
        match self.state {
            DecodeState::ExpectHead => self.len_buffer@,
            DecodeState::ExpectBody => self.len_buffer@ + self.packet_buffer@,
            DecodeState::Failed => Seq::empty(),
        }
    }

    /// Internal consistency: each stage holds strictly fewer bytes than it
    /// needs to advance, and a body stage always has an in-range length.
    pub closed spec fn wf(self) -> bool {
        match self.state {
            DecodeState::ExpectHead => self.len_buffer@.len() < HEAD_LEN,
            DecodeState::ExpectBody => {
                &&& self.len_buffer@.len() == HEAD_LEN
                &&& be32_val(self.len_buffer@) == self.packet_len
                &&& self.packet_len <= MAX_PACKET_SIZE
                &&& self.packet_buffer@.len() < self.packet_len
            },
            DecodeState::Failed => true,
        }
    }

    /// A well-formed, unpoisoned decoder never sits on a complete frame:
    /// its buffered bytes parse to no payload at all.
    pub proof fn lemma_residual_stuck(self)
        requires
            self.wf(),
            !self.failed(),
        ensures
            parse_stream(self.residual()) == Some((Seq::<Seq<u8>>::empty(), self.residual())),
    {
        match self.state {
            DecodeState::ExpectHead => {},
            DecodeState::ExpectBody => {
                let r = self.residual();
                assert(r.take(HEAD_LEN as int) =~= self.len_buffer@);
            },
            DecodeState::Failed => {},
        }
    }

    /// A fresh decoder: awaiting a header, nothing buffered.
    pub fn new() -> (d: Decoder)
        ensures
            d.wf(),
            !d.failed(),
            d.residual() == Seq::<u8>::empty(),
    {
        Decoder {
            state: DecodeState::ExpectHead,
            len_buffer: Vec::new(),
            packet_len: 0,
            packet_buffer: Vec::new(),
        }
    }

    /// Feeds one chunk of received bytes. Returns every payload the chunk
    /// completes, in arrival order — possibly none, possibly several — or
    /// `TooLarge` when a header declares a length above `MAX_PACKET_SIZE`,
    /// after which the decoder stays poisoned and every further feed fails.
    #[verifier::rlimit(60)]
    pub fn on_received(&mut self, data: &[u8]) -> (r: Result<Vec<Vec<u8>>, FrameError>)
        requires
            old(self).wf(),
        ensures
            final(self).wf(),
            r is Err ==> r == Err::<Vec<Vec<u8>>, FrameError>(FrameError::TooLarge),
            (final(self).failed() <==> (old(self).failed() || r is Err)),
            old(self).failed() ==> r is Err,
            (!old(self).failed() && r is Ok) ==> parse_stream(old(self).residual() + data@)
                == Some((views_of(r->Ok_0@), final(self).residual())),
            (!old(self).failed() && r is Err) ==> parse_stream(old(self).residual() + data@) is None,
    {
        match self.state {
            DecodeState::Failed => {
                return Err(FrameError::TooLarge);
            },
            _ => {},
        }
        let ghost init_res: Seq<u8> = self.residual() + data@;
        let mut out: Vec<Vec<u8>> = Vec::new();
        let mut i: usize = 0;
        proof {
            assert(data@.skip(0) =~= data@);
            assert(views_of(out@) =~= Seq::<Seq<u8>>::empty());
            match parse_stream(init_res) {
                None => {},
                Some((payloads, rest)) => {
                    assert(Seq::<Seq<u8>>::empty() + payloads =~= payloads);
                },
            }
        }
        while i < data.len()
            invariant
                i <= data@.len(),
                self.wf(),
                !self.failed(),
                !old(self).failed(),
                init_res == old(self).residual() + data@,
                parse_stream(init_res) == parse_cons(
                    views_of(out@),
                    parse_stream(self.residual() + data@.skip(i as int)),
                ),
            decreases data@.len() - i,
        {
            let ghost prev = *self;
            let ghost out_views: Seq<Seq<u8>> = views_of(out@);
            match self.state {
                DecodeState::ExpectHead => {
                    let want: usize = HEAD_LEN - self.len_buffer.len();
                    let avail: usize = data.len() - i;
                    let take_n: usize = if want < avail { want } else { avail };
                    push_range(&mut self.len_buffer, data, i, i + take_n);
                    let ghost j: int = i + take_n;
                    proof {
                        assert(prev.residual() + data@.skip(i as int) =~= self.len_buffer@
                            + data@.skip(j));
                    }
                    i = i + take_n;
                    if self.len_buffer.len() == HEAD_LEN {
                        let n = be32_decode(&self.len_buffer);
                        let ghost head: Seq<u8> = self.len_buffer@;
                        let ghost s: Seq<u8> = head + data@.skip(i as int);
                        proof {
                            assert(s.take(HEAD_LEN as int) =~= head);
                        }
                        if n > MAX_PACKET_SIZE as u32 {
                            proof {
                                assert(parse_stream(s) is None);
                                assert(parse_stream(init_res) == parse_cons(
                                    out_views,
                                    parse_stream(s),
                                ));
                            }
                            self.state = DecodeState::Failed;
                            return Err(FrameError::TooLarge);
                        }
                        if n == 0 {
                            proof {
                                assert(s.subrange(HEAD_LEN as int, HEAD_LEN as int) =~= Seq::<
                                    u8,
                                >::empty());
                                assert(s.skip(HEAD_LEN as int) =~= data@.skip(i as int));
                                assert(parse_stream(s) == parse_cons(
                                    seq![Seq::<u8>::empty()],
                                    parse_stream(data@.skip(i as int)),
                                ));
                                lemma_parse_cons_assoc(
                                    out_views,
                                    seq![Seq::<u8>::empty()],
                                    parse_stream(data@.skip(i as int)),
                                );
                            }
                            out.push(Vec::new());
                            self.len_buffer.clear();
                            proof {
                                assert(views_of(out@) =~= out_views + seq![Seq::<u8>::empty()]);
                                assert(self.residual() + data@.skip(i as int) =~= data@.skip(
                                    i as int,
                                ));
                            }
                        } else {
                            self.packet_len = n as usize;
                            self.packet_buffer.clear();
                            self.state = DecodeState::ExpectBody;
                            proof {
                                assert(self.residual() =~= head);
                            }
                        }
                    }
                },
                DecodeState::ExpectBody => {
                    let want: usize = self.packet_len - self.packet_buffer.len();
                    let avail: usize = data.len() - i;
                    let take_n: usize = if want < avail { want } else { avail };
                    push_range(&mut self.packet_buffer, data, i, i + take_n);
                    let ghost j: int = i + take_n;
                    proof {
                        assert(prev.residual() + data@.skip(i as int) =~= (self.len_buffer@
                            + self.packet_buffer@) + data@.skip(j));
                    }
                    i = i + take_n;
                    if self.packet_buffer.len() == self.packet_len {
                        let ghost head: Seq<u8> = self.len_buffer@;
                        let ghost body: Seq<u8> = self.packet_buffer@;
                        let ghost s: Seq<u8> = (head + body) + data@.skip(i as int);
                        let ghost n: int = self.packet_len as int;
                        proof {
                            assert(s.take(HEAD_LEN as int) =~= head);
                            assert(s.subrange(HEAD_LEN as int, HEAD_LEN + n) =~= body);
                            assert(s.skip(HEAD_LEN + n) =~= data@.skip(i as int));
                            assert(parse_stream(s) == parse_cons(
                                seq![body],
                                parse_stream(data@.skip(i as int)),
                            ));
                            lemma_parse_cons_assoc(
                                out_views,
                                seq![body],
                                parse_stream(data@.skip(i as int)),
                            );
                        }
                        let mut payload: Vec<u8> = Vec::new();
                        core::mem::swap(&mut payload, &mut self.packet_buffer);
                        out.push(payload);
                        self.len_buffer.clear();
                        self.state = DecodeState::ExpectHead;
                        proof {
                            assert(views_of(out@) =~= out_views + seq![body]);
                            assert(self.residual() + data@.skip(i as int) =~= data@.skip(i as int));
                        }
                    }
                },
                DecodeState::Failed => {
                    proof {
                        assert(false);
                    }
                    return Err(FrameError::TooLarge);
                },
            }
        }
        proof {
            assert(data@.skip(i as int) =~= Seq::<u8>::empty());
            self.lemma_residual_stuck();
            assert(self.residual() + data@.skip(i as int) =~= self.residual());
            assert(views_of(out@) + Seq::<Seq<u8>>::empty() =~= views_of(out@));
        }
        Ok(out)
    }
}

/// The header encoding and its value are inverses on 32-bit lengths.
pub proof fn lemma_be32_round(n: int)
    requires
        0 <= n < 0x100000000,
    ensures
        be32_bytes(n).len() == 4,
        be32_val(be32_bytes(n)) == n,
{
    lemma_mod_division_less_than_divisor(n, 0x100);
    lemma_mod_division_less_than_divisor(n / 0x100, 0x100);
    lemma_mod_division_less_than_divisor(n / 0x10000, 0x100);
    lemma_div_pos_is_pos(n, 0x100);
    lemma_div_pos_is_pos(n, 0x10000);
    lemma_div_pos_is_pos(n, 0x1000000);
    lemma_fundamental_div_mod(n, 0x100);
    lemma_fundamental_div_mod(n / 0x100, 0x100);
    lemma_fundamental_div_mod(n / 0x10000, 0x100);
    lemma_div_denominator(n, 0x100, 0x100);
    lemma_div_denominator(n, 0x10000, 0x100);
    lemma_multiply_divide_lt(n, 0x1000000, 0x100);
    lemma_small_mod((n / 0x1000000) as nat, 0x100);
}

/// Writes a length as a 4-byte big-endian header.
pub(crate) fn be32_encode(n: u32) -> (r: Vec<u8>)
    ensures
        r@ == be32_bytes(n as int),
{
    proof {
        lemma_div_pos_is_pos(n as int, 0x1000000);
        lemma_multiply_divide_lt(n as int, 0x1000000, 0x100);
        lemma_small_mod((n as int / 0x1000000) as nat, 0x100);
    }
    let b0: u8 = (n / 0x1000000) as u8;
    let b1: u8 = ((n / 0x10000) % 0x100) as u8;
    let b2: u8 = ((n / 0x100) % 0x100) as u8;
    let b3: u8 = (n % 0x100) as u8;
    let mut r: Vec<u8> = Vec::new();
    r.push(b0);
    r.push(b1);
    r.push(b2);
    r.push(b3);
    proof {
        assert(r@ =~= be32_bytes(n as int));
    }
    r
}

/// Length-prefix encodes one payload: the inverse of the decoder, refusing
/// payloads above `MAX_PACKET_SIZE`.
pub fn encode_frame(payload: &Vec<u8>) -> (r: Result<Vec<u8>, FrameError>)
    ensures
        payload@.len() <= MAX_PACKET_SIZE ==> (r matches Ok(f) && f@ == frame_bytes(payload@)),
        payload@.len() > MAX_PACKET_SIZE ==> r == Err::<Vec<u8>, FrameError>(FrameError::TooLarge),
{
    if payload.len() > MAX_PACKET_SIZE {
        return Err(FrameError::TooLarge);
    }
    let mut f = be32_encode(payload.len() as u32);
    push_range(&mut f, payload.as_slice(), 0, payload.len());
    proof {
        assert(payload@.subrange(0, payload@.len() as int) =~= payload@);
        assert(f@ =~= frame_bytes(payload@));
    }
    Ok(f)
}

/// Parsing a stream decomposes at any point: the payloads of `s + t` are the
/// payloads of `s` followed by those of `s`'s trailing bytes re-fed with `t`.
pub proof fn lemma_parse_stream_append(s: Seq<u8>, t: Seq<u8>)
    ensures
        parse_stream(s + t) == (match parse_stream(s) {
            None => None::<(Seq<Seq<u8>>, Seq<u8>)>,
            Some((payloads, rest)) => parse_cons(payloads, parse_stream(rest + t)),
        }),
    decreases s.len(),
{
    if s.len() < HEAD_LEN {
        match parse_stream(s + t) {
            None => {},
            Some((payloads, rest)) => {
                assert(Seq::<Seq<u8>>::empty() + payloads =~= payloads);
            },
        }
    } else {
        let n = be32_val(s.take(HEAD_LEN as int));
        assert((s + t).take(HEAD_LEN as int) =~= s.take(HEAD_LEN as int));
        if n > MAX_PACKET_SIZE {
            // both sides are poisoned by the same oversized header
        } else if s.len() < HEAD_LEN + n {
            match parse_stream(s + t) {
                None => {},
                Some((payloads, rest)) => {
                    assert(Seq::<Seq<u8>>::empty() + payloads =~= payloads);
                },
            }
        } else {
            let payload = s.subrange(HEAD_LEN as int, HEAD_LEN + n);
            let s2 = s.skip(HEAD_LEN + n);
            assert((s + t).subrange(HEAD_LEN as int, HEAD_LEN + n) =~= payload);
            assert((s + t).skip(HEAD_LEN + n) =~= s2 + t);
            lemma_parse_stream_append(s2, t);
            match parse_stream(s2) {
                None => {},
                Some((payloads2, rest2)) => {
                    lemma_parse_cons_assoc(seq![payload], payloads2, parse_stream(rest2 + t));
                },
            }
        }
    }
}

/// One step of chunked decoding at the spec level: what feeding `chunk` into
/// a decoder that has already produced `acc` yields.
pub open spec fn feed_outcome(
    acc: Option<(Seq<Seq<u8>>, Seq<u8>)>,
    chunk: Seq<u8>,
) -> Option<(Seq<Seq<u8>>, Seq<u8>)> {
    match acc {
        None => None,
        Some((payloads, rest)) => parse_cons(payloads, parse_stream(rest + chunk)),
    }
}

/// The outcome of feeding a fresh decoder a sequence of chunks, in order.
pub open spec fn decode_chunks(chunks: Seq<Seq<u8>>) -> Option<(Seq<Seq<u8>>, Seq<u8>)>
    decreases chunks.len(),
{
    if chunks.len() == 0 {
        Some((Seq::empty(), Seq::empty()))
    } else {
        feed_outcome(decode_chunks(chunks.drop_last()), chunks.last())
    }
}

/// Chunk-boundary independence: however a byte stream is split into
/// consecutive chunks, feeding the chunks in order yields the same ordered
/// payload sequence — and the same trailing bytes, or the same poisoning —
/// as feeding the whole stream at once.
pub proof fn lemma_chunk_boundary_independence(chunks: Seq<Seq<u8>>)
    ensures
        decode_chunks(chunks) == parse_stream(chunks.flatten()),
    decreases chunks.len(),
{
    if chunks.len() == 0 {
        assert(chunks.flatten() =~= Seq::<u8>::empty());
    } else {
        let front = chunks.drop_last();
        let last = chunks.last();
        lemma_chunk_boundary_independence(front);
        assert(chunks =~= front + seq![last]);
        lemma_flatten_concat(front, seq![last]);
        seq![last].lemma_flatten_one_element();
        assert(chunks.flatten() =~= front.flatten() + last);
        lemma_parse_stream_append(front.flatten(), last);
        match parse_stream(front.flatten()) {
            None => {},
            Some((payloads, rest)) => {},
        }
    }
}

/// A header declaring more than `MAX_PACKET_SIZE` poisons the whole stream:
/// nothing after it is decoded, whatever it holds — the connection is torn
/// down rather than resynchronized.
pub proof fn lemma_oversized_header_poisons(s: Seq<u8>)
    requires
        s.len() >= HEAD_LEN,
        be32_val(s.take(HEAD_LEN as int)) > MAX_PACKET_SIZE,
    ensures
        parse_stream(s) is None,
{
}

/// A frame at the front of a stream decodes to exactly its payload, and
/// decoding continues with the bytes after it.
pub proof fn lemma_frame_prepend(payload: Seq<u8>, rest: Seq<u8>)
    requires
        payload.len() <= MAX_PACKET_SIZE,
    ensures
        parse_stream(frame_bytes(payload) + rest) == parse_cons(seq![payload], parse_stream(rest)),
{
    lemma_be32_round(payload.len() as int);
    let s = frame_bytes(payload) + rest;
    assert(s.take(HEAD_LEN as int) =~= be32_bytes(payload.len() as int));
    assert(s.subrange(HEAD_LEN as int, HEAD_LEN + payload.len()) =~= payload);
    assert(s.skip(HEAD_LEN + payload.len()) =~= rest);
}

/// Round-trip: a frame built from any admissible payload decodes back to
/// exactly that payload, with nothing left over.
pub proof fn lemma_frame_round_trip(payload: Seq<u8>)
    requires
        payload.len() <= MAX_PACKET_SIZE,
    ensures
        parse_stream(frame_bytes(payload)) == Some(
            (seq![payload], Seq::<u8>::empty()),
        ),
{
    lemma_frame_prepend(payload, Seq::<u8>::empty());
    assert(frame_bytes(payload) + Seq::<u8>::empty() =~= frame_bytes(payload));
    assert(parse_stream(Seq::<u8>::empty()) == Some(
        (Seq::<Seq<u8>>::empty(), Seq::<u8>::empty()),
    ));
    assert(seq![payload] + Seq::<Seq<u8>>::empty() =~= seq![payload]);
}

/// No reordering, no duplication: a stream of frames written in send order
/// decodes to exactly the sent payloads, in that order.
pub proof fn lemma_frames_decode_in_order(payloads: Seq<Seq<u8>>)
    requires
        forall|i: int| 0 <= i < payloads.len() ==> (#[trigger] payloads[i]).len()
            <= MAX_PACKET_SIZE,
    ensures
        parse_stream(payloads.map_values(|p: Seq<u8>| frame_bytes(p)).flatten()) == Some(
            (payloads, Seq::<u8>::empty()),
        ),
    decreases payloads.len(),
{
    let frames = payloads.map_values(|p: Seq<u8>| frame_bytes(p));
    if payloads.len() == 0 {
        assert(frames.flatten() =~= Seq::<u8>::empty());
    } else {
        let first = payloads.first();
        let rest = payloads.drop_first();
        lemma_frames_decode_in_order(rest);
        assert(frames.drop_first() =~= rest.map_values(|p: Seq<u8>| frame_bytes(p)));
        assert(frames.flatten() == frame_bytes(first) + frames.drop_first().flatten());
        lemma_frame_prepend(first, frames.drop_first().flatten());
        assert(seq![first] + rest =~= payloads);
    }
}

} // verus!
