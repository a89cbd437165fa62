//! The carrier: one byte stream, and the typed values that cross it.
//!
//! A carrier sends one value as one frame, written whole and flushed, and
//! receives one value by taking exactly one frame off the stream. It keeps no
//! bytes between two operations. Its transcript lists, in order, the frames
//! whose sending or receiving completed. What it asked of its stream for them
//! stands in the stream's own record, which no code but the stream's extends.

use vstd::prelude::*;
use crate::codec::{unpack, DecodeFault, Payload};
use crate::wire::{frame_tail, is_frame, is_partial, tail_len};

verus! {

/// One operation that a stream was asked for, with what came of it.
pub enum Io {
    /// These bytes were written, all of them.
    Wrote(Seq<u8>),
    /// The write of these bytes was refused, with this error.
    WriteRefused(Seq<u8>, std::io::Error),
    /// What had been written was pushed out to the peer.
    Flushed,
    /// The flush was refused, with this error.
    FlushRefused(std::io::Error),
    /// The next byte was taken off the stream; `None`, the stream had ended.
    Took(Option<u8>),
    /// No byte could be taken: the stream failed with this error.
    TakeRefused(std::io::Error),
}

/// What a stream was asked, oldest first.
pub type Record = Seq<Io>;

/// A duplex byte stream, as far as a carrier needs one.
///
/// A stream has a record: every call of one of its methods adds one entry, the
/// operation asked for with what came of it. The record is a history, not a
/// promise: nothing is assumed of what the bytes are, nor of whether an
/// operation succeeds. It exists in contracts only; a stream written outside
/// of verified code gives `record` a body that is never run.
pub trait RWChannel {
    /// What the stream was asked so far, oldest first.
    spec fn record(&self) -> Record;

    /// Writes all of `bytes` to the stream, or fails.
    fn write_all(&mut self, bytes: &[u8]) -> (r: Result<(), std::io::Error>)
        ensures
            final(self).record() == old(self).record().push(
                match r {
                    Ok(()) => Io::Wrote(bytes@),
                    Err(e) => Io::WriteRefused(bytes@, e),
                },
            ),
    ;

    /// Pushes what was written out to the peer, or fails.
    fn flush(&mut self) -> (r: Result<(), std::io::Error>)
        ensures
            final(self).record() == old(self).record().push(
                match r {
                    Ok(()) => Io::Flushed,
                    Err(e) => Io::FlushRefused(e),
                },
            ),
    ;

    /// Takes the next byte off the stream, waiting for it if need be. `None`
    /// says that the stream has ended.
    fn read_byte(&mut self) -> (r: Result<Option<u8>, std::io::Error>)
        ensures
            final(self).record() == old(self).record().push(
                match r {
                    Ok(byte) => Io::Took(byte),
                    Err(e) => Io::TakeRefused(e),
                },
            ),
    ;
}

/// One completed operation of a carrier, with the frame that crossed.
pub enum Event {
    /// The frame was written and flushed.
    Sent(Seq<u8>),
    /// The frame was taken off the stream.
    Received(Seq<u8>),
}

impl Event {
    /// The frame that crossed.
    pub open spec fn frame(self) -> Seq<u8> {
        match self {
            Event::Sent(frame) => frame,
            Event::Received(frame) => frame,
        }
    }

    /// The same frame, seen from the other end of the stream.
    pub open spec fn mirrored(self) -> Event {
        match self {
            Event::Sent(frame) => Event::Received(frame),
            Event::Received(frame) => Event::Sent(frame),
        }
    }
}

/// A transcript as the peer sees it: every frame sent here was received there.
pub open spec fn mirror(transcript: Seq<Event>) -> Seq<Event> {
    transcript.map_values(|event: Event| event.mirrored())
}

/// The operations that take `bytes` off a stream, one by one.
pub open spec fn taking(bytes: Seq<u8>) -> Record {
    bytes.map_values(|byte: u8| Io::Took(Some(byte)))
}

/// What an event asks of the stream: a frame is sent by one write of the
/// whole frame and one flush, and received by taking its bytes, and no more.
pub open spec fn io_of(event: Event) -> Record {
    match event {
        Event::Sent(frame) => seq![Io::Wrote(frame), Io::Flushed],
        Event::Received(frame) => taking(frame),
    }
}

/// What the events of a transcript ask of the stream, one after the other.
pub open spec fn traffic(transcript: Seq<Event>) -> Record
    decreases transcript.len(),
{
    if transcript.len() == 0 {
        Seq::empty()
    } else {
        traffic(transcript.drop_last()) + io_of(transcript.last())
    }
}

/// Why a value was not sent.
#[derive(Debug)]
pub enum SendError {
    /// The encoder refused the value. Nothing was asked of the stream.
    Encode(rmp_serde::encode::Error),
    /// The stream refused the write of the frame, or the flush after it; the
    /// error is the stream's.
    Flush(std::io::Error),
}

/// Why a value was not received.
#[derive(Debug)]
pub enum RecvError {
    /// No value of the type asked for could be read off the stream.
    Decode(DecodeFault),
}

/// Between the records `before` and `after` the stream gave `bytes`, one by
/// one, and was asked nothing else.
pub open spec fn gave(before: Record, after: Record, bytes: Seq<u8>) -> bool {
    after == before + taking(bytes)
}

/// Between the records `before` and `after` the stream gave `bytes`, one by
/// one, then answered the request for one more byte with `last`, and was asked
/// nothing else.
pub open spec fn gave_then(before: Record, after: Record, bytes: Seq<u8>, last: Io) -> bool {
    after == (before + taking(bytes)).push(last)
}

/// Between the records `before` and `after` the stream gave the beginning of a
/// frame, short of the whole, or nothing; then answered the request for the
/// next byte with `last`, and was asked nothing else.
pub open spec fn cut(before: Record, after: Record, last: Io) -> bool {
    exists|part: Seq<u8>| #[trigger] gave_then(before, after, part, last) && is_partial(part)
}

/// What a failed send of `value` asked of the stream. With an encode error:
/// nothing, and the value is not encodable. Else one write of the value's
/// whole frame; where that was refused, nothing more, and the error is that
/// of the write; where not, one flush, which was refused, and the error is
/// that of the flush. Nothing was taken off the stream, and nothing asked
/// twice.
pub open spec fn send_refused<T: Payload>(
    before: Record,
    after: Record,
    value: T,
    error: SendError,
) -> bool {
    match error {
        SendError::Encode(_) => !value.encodable() && after == before,
        SendError::Flush(e) => {
            &&& value.encodable()
            &&& {
                ||| after == before.push(Io::WriteRefused(value.frame(), e))
                ||| after == before.push(Io::Wrote(value.frame())).push(Io::FlushRefused(e))
            }
        },
    }
}

/// What a failed receive of a `T` asked of the stream, by its fault.
/// `Closed`: one byte, and the stream had ended. `Truncated`: the beginning of
/// a frame was taken, then the stream had ended. `Marker`: one byte was taken,
/// and it opens no frame. `Codec`: one whole frame was taken, and it carries no
/// `T`. `Stream`: the beginning of a frame was taken, or nothing, then the
/// stream refused the next byte; the error is the stream's. Nothing was
/// written, and no byte taken after the fault.
pub open spec fn recv_refused<T: Payload>(before: Record, after: Record, fault: DecodeFault) -> bool {
    match fault {
        DecodeFault::Closed => gave_then(before, after, Seq::empty(), Io::Took(None)),
        DecodeFault::Truncated => exists|part: Seq<u8>|
            {
                &&& #[trigger] gave_then(before, after, part, Io::Took(None))
                &&& part.len() >= 1
                &&& is_partial(part)
            },
        DecodeFault::Marker(marker) => {
            &&& tail_len(marker) is None
            &&& gave(before, after, seq![marker])
        },
        DecodeFault::Codec(_) => exists|frame: Seq<u8>|
            {
                &&& #[trigger] gave(before, after, frame)
                &&& is_frame(frame)
                &&& T::carried(frame) is None
            },
        DecodeFault::Stream(e) => cut(before, after, Io::TakeRefused(e)),
    }
}

/// A stream in its box, its type forgotten.
struct Boxed {
    rw: Box<dyn RWChannel>,
}

impl Boxed {
    /// The record of the stream in the box.
    closed spec fn record(&self) -> Record {
        self.rw.record()
    }
}

/// Calls `Box::new` on a stream and lets the box forget the stream's type.
/// The stream in the box is the one handed in, and nothing was asked of it:
/// the record of the boxed stream is the record of that stream. The
/// verifier does not follow a value to where its type is forgotten, so this
/// is stated here and not proved.
#[verifier::external_body]
fn boxed<C>(rw: C) -> (stream: Boxed) where C: RWChannel + 'static
    ensures
        stream.record() == rw.record(),
{
    Boxed { rw: Box::new(rw) }
}

/// The owner of one byte stream.
pub struct Channel {
    stream: Boxed,
    broken: bool,
    transcript: Ghost<Seq<Event>>,
}

/// What a send of `value` leaves behind. It succeeds exactly where the value
/// is encodable and the stream took the write and the flush: the stream has
/// then written the value's whole frame in one piece and flushed, and was
/// asked nothing else; the transcript has grown by the frame. On failure the
/// transcript is as it was, and the stream was asked what `send_refused` says.
/// Where the encoder refused, the carrier is intact; where the stream did, it
/// no longer is.
pub open spec fn sent<T: Payload>(
    before: Channel,
    after: Channel,
    value: T,
    r: Result<(), SendError>,
) -> bool {
    match r {
        Ok(()) => {
            &&& value.encodable()
            &&& after.intact()
            &&& after.transcript() == before.transcript().push(Event::Sent(value.frame()))
            &&& after.stream() == before.stream() + io_of(Event::Sent(value.frame()))
        },
        Err(error) => {
            &&& after.intact() == (error is Encode)
            &&& after.transcript() == before.transcript()
            &&& send_refused(before.stream(), after.stream(), value, error)
        },
    }
}

/// What a successful receive leaves behind: the transcript has grown by one
/// whole frame, that frame carries `value`, and its bytes are all that the
/// stream was asked for.
pub open spec fn received<T: Payload>(before: Channel, after: Channel, value: T) -> bool {
    &&& after.intact()
    &&& after.transcript().len() == before.transcript().len() + 1
    &&& after.transcript().drop_last() == before.transcript()
    &&& after.transcript().last() is Received
    &&& is_frame(after.transcript().last().frame())
    &&& T::carried(after.transcript().last().frame()) == Some(value)
    &&& gave(before.stream(), after.stream(), after.transcript().last().frame())
}

/// What a failed receive of a `T` leaves behind: a carrier that is no longer
/// intact, with the transcript it had, whose stream was asked what
/// `recv_refused` says.
pub open spec fn refused<T: Payload>(before: Channel, after: Channel, fault: DecodeFault) -> bool {
    &&& !after.intact()
    &&& after.transcript() == before.transcript()
    &&& recv_refused::<T>(before.stream(), after.stream(), fault)
}

/// What a receive of a `T` leaves behind, whichever way it went.
pub open spec fn recv_outcome<T: Payload>(
    before: Channel,
    after: Channel,
    r: Result<T, RecvError>,
) -> bool {
    match r {
        Ok(value) => received(before, after, value),
        Err(RecvError::Decode(fault)) => refused::<T>(before, after, fault),
    }
}

impl Channel {
    /// The frames whose sending or receiving completed, oldest first.
    pub closed spec fn transcript(&self) -> Seq<Event> {
        self.transcript@
    }

    /// The record of the stream that the carrier owns: what that stream was
    /// asked, oldest first. The carrier cannot write it; only the stream's own
    /// methods add to it.
    pub closed spec fn stream(&self) -> Record {
        self.stream.record()
    }

    /// No operation has failed on the stream, and the carrier was not given
    /// up. A carrier that is not intact may stand anywhere inside a frame or a
    /// session, and is of no further use.
    pub closed spec fn intact(&self) -> bool {
        !self.broken
    }

    /// Wraps a connected stream. The carrier owns it from here on. Nothing is
    /// asked of the stream on the way: the record of the carrier's stream is
    /// that of the stream handed in.
    pub fn new<C>(rw: C) -> (channel: Channel) where C: RWChannel + 'static
        ensures
            channel.intact(),
            channel.transcript() == Seq::<Event>::empty(),
            channel.stream() == rw.record(),
    {
        Channel { stream: boxed(rw), broken: false, transcript: Ghost(Seq::empty()) }
    }

    /// Whether the carrier is intact.
    pub fn is_intact(&self) -> (intact: bool)
        ensures
            intact == self.intact(),
    {
        !self.broken
    }

    /// Gives the carrier up, as one must where a session has broken off: it is
    /// no longer intact. Nothing is asked of the stream.
    pub fn give_up(&mut self)
        ensures
            !final(self).intact(),
            final(self).transcript() == old(self).transcript(),
            final(self).stream() == old(self).stream(),
    {
        self.broken = true;
    }

    /// Asks the stream to write all of `bytes`.
    fn write(&mut self, bytes: &[u8]) -> (r: Result<(), std::io::Error>)
        ensures
            final(self).transcript() == old(self).transcript(),
            final(self).intact() == old(self).intact(),
            final(self).stream() == old(self).stream().push(
                match r {
                    Ok(()) => Io::Wrote(bytes@),
                    Err(e) => Io::WriteRefused(bytes@, e),
                },
            ),
    {
        self.stream.rw.write_all(bytes)
    }

    /// Asks the stream to flush.
    fn flush(&mut self) -> (r: Result<(), std::io::Error>)
        ensures
            final(self).transcript() == old(self).transcript(),
            final(self).intact() == old(self).intact(),
            final(self).stream() == old(self).stream().push(
                match r {
                    Ok(()) => Io::Flushed,
                    Err(e) => Io::FlushRefused(e),
                },
            ),
    {
        self.stream.rw.flush()
    }

    /// Asks the stream for its next byte.
    fn take(&mut self) -> (r: Result<Option<u8>, std::io::Error>)
        ensures
            final(self).transcript() == old(self).transcript(),
            final(self).intact() == old(self).intact(),
            final(self).stream() == old(self).stream().push(
                match r {
                    Ok(byte) => Io::Took(byte),
                    Err(e) => Io::TakeRefused(e),
                },
            ),
    {
        self.stream.rw.read_byte()
    }

    /// Takes bytes off the stream until a frame is whole, the marker proves
    /// unknown, or the stream ends or fails. Returns the bytes, and whether the
    /// stream ended before the frame was whole.
    fn pull(&mut self) -> (r: Result<(Vec<u8>, bool), std::io::Error>)
        ensures
            final(self).transcript() == old(self).transcript(),
            final(self).intact() == old(self).intact(),
            match r {
                Ok((bytes, ended)) => {
                    &&& ended ==> is_partial(bytes@) && gave_then(
                        old(self).stream(),
                        final(self).stream(),
                        bytes@,
                        Io::Took(None),
                    )
                    &&& !ended ==> gave(old(self).stream(), final(self).stream(), bytes@)
                    &&& !ended ==> is_frame(bytes@) || (bytes@.len() == 1 && tail_len(bytes@[0])
                        is None)
                },
                Err(e) => cut(old(self).stream(), final(self).stream(), Io::TakeRefused(e)),
            },
    {
        let mut bytes: Vec<u8> = Vec::new();
        assert(gave(old(self).stream(), self.stream(), bytes@));
        let marker: u8 = match self.take() {
            Err(e) => {
                assert(gave_then(old(self).stream(), self.stream(), bytes@, Io::TakeRefused(e)));
                return Err(e);
            },
            Ok(None) => {
                return Ok((bytes, true));
            },
            Ok(Some(marker)) => marker,
        };
        bytes.push(marker);
        proof {
            assert(self.stream() =~= old(self).stream() + taking(bytes@));
        }
        let tail: usize = match frame_tail(marker) {
            None => {
                return Ok((bytes, false));
            },
            Some(tail) => tail,
        };
        while bytes.len() <= tail
            invariant
                self.transcript() == old(self).transcript(),
                self.intact() == old(self).intact(),
                gave(old(self).stream(), self.stream(), bytes@),
                1 <= bytes@.len() <= 1 + tail,
                bytes@[0] == marker,
                tail_len(marker) == Some(tail as nat),
            decreases 1 + tail - bytes@.len(),
        {
            match self.take() {
                Err(e) => {
                    assert(gave_then(
                        old(self).stream(),
                        self.stream(),
                        bytes@,
                        Io::TakeRefused(e),
                    ));
                    return Err(e);
                },
                Ok(None) => {
                    return Ok((bytes, true));
                },
                Ok(Some(digit)) => {
                    bytes.push(digit);
                    proof {
                        assert(self.stream() =~= old(self).stream() + taking(bytes@));
                    }
                },
            }
        }
        Ok((bytes, false))
    }

    /// Sends a choice between two branches: a boolean, framed and sent as any
    /// other value is.
    pub fn send_choice(&mut self, choice: bool) -> (r: Result<(), SendError>)
        requires
            old(self).intact(),
        ensures
            sent(*old(self), *final(self), choice, r),
    {
        Value::new(choice).send(self)
    }

    /// Receives the peer's choice between two branches: a boolean, received as
    /// any other value is.
    pub fn recv_choice(&mut self) -> (r: Result<bool, RecvError>)
        requires
            old(self).intact(),
        ensures
            recv_outcome(*old(self), *final(self), r),
    {
        match Value::<bool>::recv(self) {
            Ok(value) => Ok(value.get()),
            Err(e) => Err(e),
        }
    }
}

/// A payload marked for transport.
#[derive(Clone, Debug)]
pub struct Value<T>(T);

impl<T> View for Value<T> {
    type V = T;

    closed spec fn view(&self) -> T {
        self.0
    }
}

impl<T: Payload> Value<T> {
    /// Wraps a payload.
    pub fn new(value: T) -> (wrapped: Value<T>)
        ensures
            wrapped@ == value,
    {
        Value(value)
    }

    /// Encodes the payload, writes its frame to the stream in one piece and
    /// flushes. Succeeds exactly where the payload is encodable and the stream
    /// took the write and the flush; the first of the three to fail ends the
    /// send, and nothing is tried again.
    pub fn send(self, carrier: &mut Channel) -> (r: Result<(), SendError>)
        requires
            old(carrier).intact(),
        ensures
            sent(*old(carrier), *final(carrier), self@, r),
    {
        let bytes = match self.0.encode() {
            Ok(bytes) => bytes,
            Err(e) => {
                return Err(SendError::Encode(e));
            },
        };
        match carrier.write(bytes.as_slice()) {
            Ok(()) => {},
            Err(e) => {
                carrier.broken = true;
                return Err(SendError::Flush(e));
            },
        }
        match carrier.flush() {
            Ok(()) => {},
            Err(e) => {
                carrier.broken = true;
                return Err(SendError::Flush(e));
            },
        }
        proof {
            carrier.transcript@ = carrier.transcript@.push(Event::Sent(bytes@));
            assert(carrier.stream() =~= old(carrier).stream() + io_of(Event::Sent(bytes@)));
        }
        Ok(())
    }

    /// Takes one frame off the stream and decodes it. Fails where the stream
    /// fails or ends before the frame is whole, where the first byte opens no
    /// frame, and where the frame carries no value of this type; the fault says
    /// which. No byte behind the frame is taken.
    ///
    /// A frame is one boolean or one 64-bit integer. Where the peer sends any
    /// other value (a string, a float, an array, a map, nil), the receive ends
    /// with a `Marker` fault after the first byte of it.
    pub fn recv(carrier: &mut Channel) -> (r: Result<Value<T>, RecvError>)
        requires
            old(carrier).intact(),
        ensures
            match r {
                Ok(value) => received(*old(carrier), *final(carrier), value@),
                Err(RecvError::Decode(fault)) => refused::<T>(*old(carrier), *final(carrier), fault),
            },
    {
        let (bytes, ended) = match carrier.pull() {
            Ok(pulled) => pulled,
            Err(e) => {
                let ghost pulled = carrier.stream();
                carrier.broken = true;
                assert(carrier.stream() == pulled);
                return Err(RecvError::Decode(DecodeFault::Stream(e)));
            },
        };
        let ghost pulled = carrier.stream();
        match unpack::<T>(bytes.as_slice()) {
            Ok((value, used)) => {
                proof {
                    assert(bytes@.take(used as int) =~= bytes@);
                    carrier.transcript@ = carrier.transcript@.push(Event::Received(bytes@));
                    assert(carrier.transcript@.drop_last() =~= old(carrier).transcript@);
                }
                Ok(Value(value))
            },
            Err(fault) => {
                carrier.broken = true;
                proof {
                    assert(carrier.stream() == pulled);
                    if ended {
                        assert(gave_then(old(carrier).stream(), pulled, bytes@, Io::Took(None)));
                    } else {
                        assert(gave(old(carrier).stream(), pulled, bytes@));
                    }
                    match fault {
                        DecodeFault::Marker(marker) => {
                            assert(bytes@ =~= seq![marker]);
                        },
                        DecodeFault::Codec(_) => {
                            assert(bytes@.take(bytes@.len() as int) =~= bytes@);
                        },
                        DecodeFault::Closed => {
                            assert(bytes@ =~= Seq::<u8>::empty());
                        },
                        _ => {},
                    }
                }
                Err(RecvError::Decode(fault))
            },
        }
    }
}

impl<T> Value<T> {
    /// Unwraps the payload.
    pub fn get(self) -> (value: T)
        ensures
            value == self@,
    {
        self.0
    }
}

} // verus!
