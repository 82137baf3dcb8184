//! Length-prefixed framing of the session socket.
//!
//! Each message on the socket is a two-byte length, in the machine's byte
//! order, followed by that many bytes of payload. `FrameReader` is the decoder
//! that the socket's read loop drives: it says how many bytes the next read
//! should ask for, and turns each read result into what the loop does next.
use vstd::prelude::*;

verus! {

/// The byte order of the two-byte length that precedes each message.
#[derive(Clone, Copy, Debug, PartialEq, Eq, Structural)]
pub enum ByteOrder {
    Little,
    Big,
}

/// The payload length that the header bytes `b0`, `b1` announce.
pub open spec fn frame_size(order: ByteOrder, b0: u8, b1: u8) -> nat {
    match order {
        ByteOrder::Little => b0 as nat + 256 * (b1 as nat),
        ByteOrder::Big => 256 * (b0 as nat) + b1 as nat,
    }
}

/// The two header bytes that announce a payload of `len` bytes (`len < 65536`).
pub open spec fn header_bytes(order: ByteOrder, len: nat) -> Seq<u8> {
    match order {
        ByteOrder::Little => seq![(len % 256) as u8, (len / 256) as u8],
        ByteOrder::Big => seq![(len / 256) as u8, (len % 256) as u8],
    }
}

/// The frame that carries `payload`: its length, cut to 16 bits, then the payload.
pub open spec fn frame_of(order: ByteOrder, payload: Seq<u8>) -> Seq<u8> {
    header_bytes(order, payload.len() % 65536) + payload
}

/// The frames of several payloads, one after the other.
pub open spec fn frames_of(order: ByteOrder, payloads: Seq<Seq<u8>>) -> Seq<u8>
    decreases payloads.len(),
{
    if payloads.len() == 0 {
        seq![]
    } else {
        frame_of(order, payloads[0]) + frames_of(order, payloads.drop_first())
    }
}

/// The length of the frame that starts `stream` (which holds at least two bytes).
pub open spec fn first_frame_end(order: ByteOrder, stream: Seq<u8>) -> nat {
    2 + frame_size(order, stream[0], stream[1])
}

/// Whether `stream` holds no complete frame at its start.
pub open spec fn is_partial_frame(order: ByteOrder, stream: Seq<u8>) -> bool {
    stream.len() < 2 || stream.len() < first_frame_end(order, stream)
}

/// Cuts a byte stream into the payloads of its complete frames and the bytes
/// that follow the last complete frame.
pub open spec fn split_frames(order: ByteOrder, stream: Seq<u8>) -> (Seq<Seq<u8>>, Seq<u8>)
    decreases stream.len(),
{
    if is_partial_frame(order, stream) {
        (seq![], stream)
    } else {
        let end = first_frame_end(order, stream) as int;
        let rest = split_frames(order, stream.subrange(end, stream.len() as int));
        (seq![stream.subrange(2, end)] + rest.0, rest.1)
    }
}

/// What the reader delivers, and what it keeps, when a sequence of reads
/// hands it `chunks`, one after the other, on top of the bytes `pending`.
pub open spec fn deliver_chunks(order: ByteOrder, pending: Seq<u8>, chunks: Seq<Seq<u8>>) -> (
    Seq<Seq<u8>>,
    Seq<u8>,
)
    decreases chunks.len(),
{
    if chunks.len() == 0 {
        (seq![], pending)
    } else {
        let step = split_frames(order, pending + chunks[0]);
        let later = deliver_chunks(order, step.1, chunks.drop_first());
        (step.0 + later.0, later.1)
    }
}

/// All chunks, one after the other.
pub open spec fn flatten_chunks(chunks: Seq<Seq<u8>>) -> Seq<u8>
    decreases chunks.len(),
{
    if chunks.len() == 0 {
        seq![]
    } else {
        chunks[0] + flatten_chunks(chunks.drop_first())
    }
}

/// How many bytes the next read may take without crossing the end of the
/// frame that `pending` begins.
pub open spec fn bytes_wanted(order: ByteOrder, pending: Seq<u8>) -> nat {
    if pending.len() < 2 {
        (2 - pending.len()) as nat
    } else {
        (first_frame_end(order, pending) - pending.len()) as nat
    }
}

/// A header is the length as an unsigned 16-bit number in the given byte
/// order: the low byte is the length modulo 256 and the high byte the number
/// of whole 256s, with the low byte first in little-endian order and last in
/// big-endian order; and a header read back as a length gives the number whose
/// base-256 digits are its bytes, so that the two byte orders mirror each other.
pub proof fn lemma_header_is_u16(order: ByteOrder, len: nat)
    requires
        len < 65536,
    ensures
        header_bytes(order, len).len() == 2,
        order == ByteOrder::Little ==> header_bytes(order, len)[0] == len % 256
            && header_bytes(order, len)[1] == len / 256,
        order == ByteOrder::Big ==> header_bytes(order, len)[0] == len / 256
            && header_bytes(order, len)[1] == len % 256,
        forall|b0: u8, b1: u8|
            #![trigger frame_size(ByteOrder::Little, b0, b1)]
            frame_size(ByteOrder::Little, b0, b1) % 256 == b0 && frame_size(ByteOrder::Little, b0, b1)
                / 256 == b1 && frame_size(ByteOrder::Little, b0, b1) < 65536,
        forall|b0: u8, b1: u8|
            #![trigger frame_size(ByteOrder::Big, b0, b1)]
            frame_size(ByteOrder::Big, b0, b1) == frame_size(ByteOrder::Little, b1, b0),
        frame_size(order, header_bytes(order, len)[0], header_bytes(order, len)[1]) == len,
{
    assert forall|b0: u8, b1: u8|
        #![trigger frame_size(ByteOrder::Little, b0, b1)]
        frame_size(ByteOrder::Little, b0, b1) % 256 == b0 && frame_size(ByteOrder::Little, b0, b1)
            / 256 == b1 && frame_size(ByteOrder::Little, b0, b1) < 65536 by {
        let v = frame_size(ByteOrder::Little, b0, b1);
        assert(v == b0 + 256 * b1);
        assert((b0 + 256 * b1) % 256 == b0 && (b0 + 256 * b1) / 256 == b1) by (nonlinear_arith)
            requires
                0 <= b0 < 256,
                0 <= b1 < 256,
        ;
    }
}

/// Splitting a stream in two and splitting the parts in turn, carrying over
/// what the first part leaves, gives what splitting the whole stream gives.
pub proof fn lemma_split_frames_append(order: ByteOrder, s: Seq<u8>, t: Seq<u8>)
    ensures
        ({
            let first = split_frames(order, s);
            let second = split_frames(order, first.1 + t);
            split_frames(order, s + t) == (first.0 + second.0, second.1)
        }),
    decreases s.len(),
{
    if is_partial_frame(order, s) {
        assert(split_frames(order, s).0 + split_frames(order, s + t).0 =~= split_frames(
            order,
            s + t,
        ).0);
    } else {
        let end = first_frame_end(order, s) as int;
        let st = s + t;
        assert(st[0] == s[0] && st[1] == s[1]);
        assert(!is_partial_frame(order, st));
        let tail = s.subrange(end, s.len() as int);
        assert(st.subrange(end, st.len() as int) =~= tail + t);
        assert(st.subrange(2, end) =~= s.subrange(2, end));
        lemma_split_frames_append(order, tail, t);
        let first = split_frames(order, s);
        let second = split_frames(order, first.1 + t);
        assert(split_frames(order, st).0 =~= first.0 + second.0);
    }
}

/// Feeding a stream to the reader in chunks delivers the payloads of the
/// complete frames of the whole stream and keeps what follows them, however
/// the stream was cut into chunks.
pub proof fn lemma_chunking_is_invisible(order: ByteOrder, pending: Seq<u8>, chunks: Seq<Seq<u8>>)
    requires
        is_partial_frame(order, pending),
    ensures
        deliver_chunks(order, pending, chunks) == split_frames(
            order,
            pending + flatten_chunks(chunks),
        ),
    decreases chunks.len(),
{
    if chunks.len() == 0 {
        assert(pending + flatten_chunks(chunks) =~= pending);
    } else {
        let c = chunks[0];
        let rest = chunks.drop_first();
        let step = split_frames(order, pending + c);
        lemma_partial_remainder(order, pending + c);
        lemma_chunking_is_invisible(order, step.1, rest);
        lemma_split_frames_append(order, pending + c, flatten_chunks(rest));
        assert(pending + c + flatten_chunks(rest) =~= pending + flatten_chunks(chunks));
        let later = deliver_chunks(order, step.1, rest);
        assert(deliver_chunks(order, pending, chunks).0 =~= step.0 + later.0);
    }
}

/// What `split_frames` keeps holds no complete frame.
pub proof fn lemma_partial_remainder(order: ByteOrder, stream: Seq<u8>)
    ensures
        is_partial_frame(order, split_frames(order, stream).1),
    decreases stream.len(),
{
    if !is_partial_frame(order, stream) {
        let end = first_frame_end(order, stream) as int;
        lemma_partial_remainder(order, stream.subrange(end, stream.len() as int));
    }
}

/// A frame written for `payload` (of fewer than 65536 bytes) is read back as
/// exactly `payload`, whatever follows it.
pub proof fn lemma_frame_roundtrip(order: ByteOrder, payload: Seq<u8>, rest: Seq<u8>)
    requires
        payload.len() < 65536,
    ensures
        ({
            let after = split_frames(order, rest);
            split_frames(order, frame_of(order, payload) + rest) == (
                seq![payload] + after.0,
                after.1,
            )
        }),
{
    let f = frame_of(order, payload);
    let s = f + rest;
    let len = payload.len();
    assert(s[0] == f[0] && s[1] == f[1]);
    assert(frame_size(order, s[0], s[1]) == len) by {
        assert(len % 65536 == len);
    }
    let end = first_frame_end(order, s) as int;
    assert(end == 2 + len);
    assert(s.subrange(2, end) =~= payload);
    assert(s.subrange(end, s.len() as int) =~= rest);
    assert(split_frames(order, s).0 =~= seq![payload] + split_frames(order, rest).0);
}

/// Frames written one after another for payloads of fewer than 65536 bytes
/// each are read back as exactly those payloads, with nothing left over.
pub proof fn lemma_frames_roundtrip(order: ByteOrder, payloads: Seq<Seq<u8>>)
    requires
        forall|i: int| 0 <= i < payloads.len() ==> #[trigger] payloads[i].len() < 65536,
    ensures
        split_frames(order, frames_of(order, payloads)) == (payloads, Seq::<u8>::empty()),
    decreases payloads.len(),
{
    if payloads.len() == 0 {
        assert(is_partial_frame(order, frames_of(order, payloads)));
    } else {
        let rest = payloads.drop_first();
        assert forall|i: int| 0 <= i < rest.len() implies #[trigger] rest[i].len() < 65536 by {
            assert(rest[i] == payloads[i + 1]);
        }
        lemma_frames_roundtrip(order, rest);
        lemma_frame_roundtrip(order, payloads[0], frames_of(order, rest));
        assert(seq![payloads[0]] + rest =~= payloads);
    }
}

/// A fresh reader that is handed the frames of some payloads (each of fewer
/// than 65536 bytes), cut into chunks in any way, delivers exactly those
/// payloads, in order, and is left with nothing pending.
pub proof fn lemma_written_frames_read_back(
    order: ByteOrder,
    payloads: Seq<Seq<u8>>,
    chunks: Seq<Seq<u8>>,
)
    requires
        forall|i: int| 0 <= i < payloads.len() ==> #[trigger] payloads[i].len() < 65536,
        flatten_chunks(chunks) == frames_of(order, payloads),
    ensures
        deliver_chunks(order, Seq::<u8>::empty(), chunks) == (payloads, Seq::<u8>::empty()),
{
    lemma_chunking_is_invisible(order, Seq::<u8>::empty(), chunks);
    assert(Seq::<u8>::empty() + flatten_chunks(chunks) =~= frames_of(order, payloads));
    lemma_frames_roundtrip(order, payloads);
}

/// The decoder state of the session socket's read loop.
pub struct FrameReader {
    order: ByteOrder,
    header: Vec<u8>,
    body: Vec<u8>,
    body_len: usize,
}

/// What a read on the socket gave.
pub enum ReadResult {
    /// Some bytes (at least one, and no more than the reader asked for).
    Data(Vec<u8>),
    /// The read returned no bytes: the peer closed the socket.
    Eof,
    /// No bytes are available right now.
    WouldBlock,
    /// The read was interrupted before it got any byte.
    Interrupted,
    /// Any other error; the loop passes it on.
    Error,
}

/// What the read loop does next.
#[derive(Debug)]
pub enum ReadAction {
    /// Read again.
    ReadAgain,
    /// Hand this message to the caller, then read again.
    Deliver(Vec<u8>),
    /// Stop: everything available was read and the socket stays open.
    Drained,
    /// Stop: the socket was closed between two messages.
    Closed,
    /// Stop with an error: the socket was closed in a message header.
    EofInHeader,
    /// Stop with an error: the socket was closed in a message body.
    EofInBody,
    /// Stop and pass on the read's own error.
    Failed,
}

/// What the read loop ends with when a read finds no byte: `Drained` while
/// the socket stays open; once the peer closed it, `Closed` between two
/// messages and an error inside one.
pub open spec fn end_action(pending: Seq<u8>, closed: bool) -> ReadAction {
    if !closed {
        ReadAction::Drained
    } else if pending.len() == 0 {
        ReadAction::Closed
    } else if pending.len() < 2 {
        ReadAction::EofInHeader
    } else {
        ReadAction::EofInBody
    }
}

/// What one call of the read loop gives when its reads hand over `chunks`,
/// one after the other, and the next read finds the socket drained (or, where
/// `closed`, shut): the messages delivered in order, the action it ends with,
/// and the bytes it keeps for the next call.
pub open spec fn read_loop(order: ByteOrder, pending: Seq<u8>, chunks: Seq<Seq<u8>>, closed: bool) -> (
    Seq<Seq<u8>>,
    ReadAction,
    Seq<u8>,
) {
    let delivered = deliver_chunks(order, pending, chunks);
    (delivered.0, end_action(delivered.1, closed), delivered.1)
}

/// One call of the read loop delivers, in order, the payloads of the complete
/// frames in the pending bytes and the bytes read, keeps the rest (which holds
/// no complete frame), and ends drained while the socket is open, cleanly where
/// it was shut between messages, and with an error where it was shut inside one.
pub proof fn lemma_read_loop(order: ByteOrder, pending: Seq<u8>, chunks: Seq<Seq<u8>>, closed: bool)
    requires
        is_partial_frame(order, pending),
    ensures
        ({
            let whole = split_frames(order, pending + flatten_chunks(chunks));
            &&& read_loop(order, pending, chunks, closed) == (
                whole.0,
                end_action(whole.1, closed),
                whole.1,
            )
            &&& is_partial_frame(order, whole.1)
        }),
{
    lemma_chunking_is_invisible(order, pending, chunks);
    lemma_partial_remainder(order, pending + flatten_chunks(chunks));
}

impl FrameReader {
    /// The bytes read since the end of the last complete message.
    pub closed spec fn pending(&self) -> Seq<u8> {
        self.header@ + self.body@
    }

    /// The byte order in which this reader decodes lengths.
    pub closed spec fn byte_order(&self) -> ByteOrder {
        self.order
    }

    /// The reader's invariant: it holds the start of a frame that is not
    /// complete, and `body_len` is the length of that frame's payload.
    #[verifier::type_invariant]
    spec fn wf(&self) -> bool {
        &&& self.header@.len() <= 2
        &&& self.header@.len() < 2 ==> self.body@.len() == 0
        &&& self.header@.len() == 2 ==> {
            &&& self.body_len == frame_size(self.order, self.header@[0], self.header@[1])
            &&& self.body@.len() < self.body_len
        }
    }

    proof fn lemma_wf_partial(&self)
        requires
            self.wf(),
        ensures
            is_partial_frame(self.order, self.pending()),
            split_frames(self.order, self.pending()) == (Seq::<Seq<u8>>::empty(), self.pending()),
    {
        let p = self.pending();
        if self.header@.len() == 2 {
            assert(p[0] == self.header@[0] && p[1] == self.header@[1]);
        }
    }

    /// A reader that has read nothing yet.
    pub fn new(order: ByteOrder) -> (reader: Self)
        ensures
            reader.pending() == Seq::<u8>::empty(),
            reader.byte_order() == order,
    {
        let reader = FrameReader { order, header: Vec::new(), body: Vec::new(), body_len: 0 };
        assert(reader.pending() =~= Seq::<u8>::empty());
        reader
    }

    /// How many bytes the next read asks for: the rest of the header, or the
    /// rest of the message body.
    pub fn wanted(&self) -> (n: usize)
        ensures
            n == bytes_wanted(self.byte_order(), self.pending()),
            n > 0,
            is_partial_frame(self.byte_order(), self.pending()),
    {
        proof {
            use_type_invariant(self);
            self.lemma_wf_partial();
        }
        let p = Ghost(self.pending());
        if self.header.len() < 2 {
            2 - self.header.len()
        } else {
            assert(p@[0] == self.header@[0] && p@[1] == self.header@[1]);
            self.body_len - self.body.len()
        }
    }

    /// Takes in what a read gave and says what the loop does next.
    ///
    /// Bytes extend the pending frame; a message is delivered as soon as its
    /// frame is complete, and a header that announces an empty message
    /// delivers it at once. A read of no bytes ends the loop: cleanly between
    /// two messages, with an error inside one.
    pub fn on_read(&mut self, result: ReadResult) -> (action: ReadAction)
        requires
            result matches ReadResult::Data(d) ==> 0 < d@.len() <= bytes_wanted(
                old(self).byte_order(),
                old(self).pending(),
            ),
        ensures
            final(self).byte_order() == old(self).byte_order(),
            is_partial_frame(final(self).byte_order(), final(self).pending()),
            match result {
                ReadResult::Data(d) => {
                    let split = split_frames(old(self).byte_order(), old(self).pending() + d@);
                    &&& final(self).pending() == split.1
                    &&& split.0.len() <= 1
                    &&& split.0.len() == 0 ==> action is ReadAgain
                    &&& split.0.len() == 1 ==> (action matches ReadAction::Deliver(m) && m@
                        == split.0[0])
                },
                ReadResult::Eof => {
                    &&& final(self).pending() == old(self).pending()
                    &&& action == end_action(old(self).pending(), true)
                },
                ReadResult::WouldBlock => {
                    &&& final(self).pending() == old(self).pending()
                    &&& action == end_action(old(self).pending(), false)
                },
                ReadResult::Interrupted => {
                    &&& final(self).pending() == old(self).pending()
                    &&& action is ReadAgain
                },
                ReadResult::Error => {
                    &&& final(self).pending() == old(self).pending()
                    &&& action is Failed
                },
            },
    {
        proof {
            use_type_invariant(&*self);
            self.lemma_wf_partial();
        }
        match result {
            ReadResult::Data(data) => {
                let mut current = FrameReader::new(self.order);
                std::mem::swap(&mut current, self);
                let (next, action) = current.consume(data);
                *self = next;
                proof {
                    use_type_invariant(&*self);
                    self.lemma_wf_partial();
                }
                action
            },
            ReadResult::Eof => {
                if self.header.len() == 0 {
                    ReadAction::Closed
                } else if self.header.len() < 2 {
                    ReadAction::EofInHeader
                } else {
                    ReadAction::EofInBody
                }
            },
            ReadResult::WouldBlock => ReadAction::Drained,
            ReadResult::Interrupted => ReadAction::ReadAgain,
            ReadResult::Error => ReadAction::Failed,
        }
    }

    /// The reader after a read that gave `data`, and what the loop does next.
    fn consume(self, data: Vec<u8>) -> (r: (Self, ReadAction))
        requires
            0 < data@.len() <= bytes_wanted(self.order, self.pending()),
        ensures
            r.0.order == self.order,
            ({
                let split = split_frames(self.order, self.pending() + data@);
                &&& r.0.pending() == split.1
                &&& split.0.len() <= 1
                &&& split.0.len() == 0 ==> r.1 is ReadAgain
                &&& split.0.len() == 1 ==> (r.1 matches ReadAction::Deliver(m) && m@ == split.0[0])
            }),
    {
        proof {
            use_type_invariant(&self);
        }
        let ghost before = self.pending();
        let ghost stream = before + data@;
        let order = self.order;
        let body_len = self.body_len;
        let mut header = self.header;
        let mut body = self.body;
        if header.len() < 2 {
            assert(before =~= header@);
            let mut i: usize = 0;
            while i < data.len()
                invariant
                    i <= data@.len(),
                    before.len() + data@.len() <= 2,
                    header@ =~= before + data@.subrange(0, i as int),
                decreases data@.len() - i,
            {
                header.push(data[i]);
                i = i + 1;
            }
            assert(header@ =~= stream);
            if header.len() < 2 {
                let next = FrameReader { order, header, body: Vec::new(), body_len: 0 };
                assert(next.pending() =~= stream);
                return (next, ReadAction::ReadAgain);
            }
            let size = decode_frame_size(order, header[0], header[1]);
            if size == 0 {
                assert(stream.subrange(2, 2) =~= Seq::<u8>::empty());
                assert(stream.subrange(2, stream.len() as int) =~= Seq::<u8>::empty());
                assert(split_frames(order, Seq::<u8>::empty()) == (
                    Seq::<Seq<u8>>::empty(),
                    Seq::<u8>::empty(),
                ));
                assert(split_frames(order, stream).0 =~= seq![Seq::<u8>::empty()]);
                let next = FrameReader::new(order);
                (next, ReadAction::Deliver(Vec::new()))
            } else {
                let next = FrameReader { order, header, body: Vec::new(), body_len: size };
                assert(next.pending() =~= stream);
                (next, ReadAction::ReadAgain)
            }
        } else {
            let ghost n = body_len;
            assert(stream[0] == header@[0] && stream[1] == header@[1]);
            assert(first_frame_end(order, stream) == 2 + n);
            let mut more = data;
            body.append(&mut more);
            assert(header@ + body@ =~= stream);
            if body.len() == body_len {
                assert(stream.subrange(2, 2 + n) =~= body@);
                assert(stream.subrange(2 + n, stream.len() as int) =~= Seq::<u8>::empty());
                assert(split_frames(order, Seq::<u8>::empty()) == (
                    Seq::<Seq<u8>>::empty(),
                    Seq::<u8>::empty(),
                ));
                assert(split_frames(order, stream).0 =~= seq![body@]);
                (FrameReader::new(order), ReadAction::Deliver(body))
            } else {
                let next = FrameReader { order, header, body, body_len };
                assert(next.pending() =~= stream);
                (next, ReadAction::ReadAgain)
            }
        }
    }
}

/// The payload length that the header bytes `b0`, `b1` announce in `order`.
fn decode_frame_size(order: ByteOrder, b0: u8, b1: u8) -> (n: usize)
    ensures
        n == frame_size(order, b0, b1),
{
    match order {
        ByteOrder::Little => b0 as usize + 256 * (b1 as usize),
        ByteOrder::Big => 256 * (b0 as usize) + b1 as usize,
    }
}

/// The frame that carries `payload` on the session socket: the payload's
/// length, cut to 16 bits, in `order`, then the payload itself.
pub fn encode_frame(order: ByteOrder, payload: &[u8]) -> (frame: Vec<u8>)
    ensures
        frame@ == frame_of(order, payload@),
        frame@.len() == payload@.len() + 2,
        frame@.subrange(2, frame@.len() as int) == payload@,
        order == ByteOrder::Little ==> frame@[0] + 256 * frame@[1] == payload@.len() % 65536,
        order == ByteOrder::Big ==> 256 * frame@[0] + frame@[1] == payload@.len() % 65536,
{
    proof {
        lemma_header_is_u16(order, payload@.len() % 65536);
    }
    let len = payload.len() % 65536;
    let low = (len % 256) as u8;
    let high = (len / 256) as u8;
    let mut frame: Vec<u8> = Vec::new();
    match order {
        ByteOrder::Little => {
            frame.push(low);
            frame.push(high);
        },
        ByteOrder::Big => {
            frame.push(high);
            frame.push(low);
        },
    }
    assert(frame@ =~= header_bytes(order, payload@.len() % 65536));
    let mut i: usize = 0;
    while i < payload.len()
        invariant
            i <= payload@.len(),
            frame@ =~= header_bytes(order, payload@.len() % 65536) + payload@.subrange(0, i as int),
        decreases payload@.len() - i,
    {
        frame.push(payload[i]);
        i = i + 1;
    }
    assert(payload@.subrange(0, payload@.len() as int) =~= payload@);
    frame
}

} // verus!
