//! What holds of every session, proved from the machines and the frames.

use vstd::prelude::*;
use crate::carrier::{
    gave, gave_then, mirror, recv_outcome, recv_refused, sent, taking, Channel, Event, Io, Record,
    RecvError, SendError,
};
use crate::codec::{DecodeFault, Payload};
use crate::driver::{turn_refused, SessionError};
use crate::protocol::{
    client_after, client_session, is_first_match, server_after, server_session, signal_of,
    ClientState, ServerState, Signal, Turn, DONE, FOUND, HAS_NEXT, MISS, PROCEED, QUIT,
};
use crate::wire::{
    is_frame, is_partial, lemma_bool_round_trip, lemma_int_round_trip, lemma_uint_round_trip,
    tail_len,
};

verus! {

/// Round trip: the frame of a value is one whole frame, and what it carries
/// is that value.
pub proof fn law_round_trip<T: Payload>(value: T)
    ensures
        is_frame(value.frame()),
        T::carried(value.frame()) == Some(value),
{
    value.lemma_round_trip();
}

/// Where bytes were taken and nothing else was asked, the record has grown by
/// as many entries as bytes, and its last entry took the last byte.
proof fn lemma_gave(before: Record, after: Record, bytes: Seq<u8>)
    requires
        gave(before, after, bytes),
    ensures
        after.len() == before.len() + bytes.len(),
        bytes.len() >= 1 ==> after.last() == Io::Took(Some(bytes.last())),
{
    if bytes.len() >= 1 {
        assert(after.last() == taking(bytes).last());
    }
}

/// The bytes that a stream gave are told by its record.
proof fn lemma_gave_the_same(before: Record, after: Record, one: Seq<u8>, other: Seq<u8>)
    requires
        gave(before, after, one),
        gave(before, after, other),
    ensures
        one == other,
{
    lemma_gave(before, after, one);
    lemma_gave(before, after, other);
    assert forall|i: int| 0 <= i < one.len() implies one[i] == other[i] by {
        assert(after[before.len() + i] == taking(one)[i]);
        assert(after[before.len() + i] == taking(other)[i]);
    }
    assert(one =~= other);
}

/// What the last entry of the record tells of a failed receive. It met the
/// end of the stream last where the fault is `Closed`, at once, or
/// `Truncated`, after a byte at least; it was refused last where the fault is
/// `Stream`, with the error that the fault carries; else it took a byte last.
proof fn lemma_fault_entry<T: Payload>(before: Record, after: Record, fault: DecodeFault)
    requires
        recv_refused::<T>(before, after, fault),
    ensures
        after.len() >= before.len() + 1,
        match fault {
            DecodeFault::Closed => after.last() == Io::Took(None) && after.len() == before.len()
                + 1,
            DecodeFault::Truncated => after.last() == Io::Took(None) && after.len()
                >= before.len() + 2,
            DecodeFault::Stream(e) => after.last() == Io::TakeRefused(e),
            _ => after.last() matches Io::Took(Some(_)),
        },
{
    match fault {
        DecodeFault::Marker(marker) => {
            lemma_gave(before, after, seq![marker]);
        },
        DecodeFault::Codec(_) => {
            let frame = choose|frame: Seq<u8>|
                {
                    &&& #[trigger] gave(before, after, frame)
                    &&& is_frame(frame)
                    &&& T::carried(frame) is None
                };
            lemma_gave(before, after, frame);
        },
        _ => {},
    }
}

/// What the last entry of the record tells of a receive. Every receive asks
/// the stream for a byte at least. Where it succeeded it took a byte last;
/// where it failed, the last entry is what `lemma_fault_entry` says.
proof fn lemma_last_entry<T: Payload>(before: Channel, after: Channel, r: Result<T, RecvError>)
    requires
        recv_outcome(before, after, r),
    ensures
        after.stream().len() >= before.stream().len() + 1,
        match r {
            Err(RecvError::Decode(DecodeFault::Closed)) => {
                &&& after.stream().last() == Io::Took(None)
                &&& after.stream().len() == before.stream().len() + 1
            },
            Err(RecvError::Decode(DecodeFault::Truncated)) => {
                &&& after.stream().last() == Io::Took(None)
                &&& after.stream().len() >= before.stream().len() + 2
            },
            Err(RecvError::Decode(DecodeFault::Stream(e))) => after.stream().last()
                == Io::TakeRefused(e),
            _ => after.stream().last() matches Io::Took(Some(_)),
        },
{
    match r {
        Ok(value) => {
            lemma_gave(before.stream(), after.stream(), after.transcript().last().frame());
        },
        Err(RecvError::Decode(fault)) => {
            lemma_fault_entry::<T>(before.stream(), after.stream(), fault);
        },
    }
}

/// Between the records `before` and `after` the stream gave one whole frame
/// that carries a `T`, and was asked nothing else.
pub open spec fn frame_was<T: Payload>(before: Record, after: Record) -> bool {
    exists|frame: Seq<u8>|
        {
            &&& #[trigger] gave(before, after, frame)
            &&& is_frame(frame)
            &&& T::carried(frame) is Some
        }
}

/// Where a receive of a `T` failed, what the stream gave is no whole frame
/// that carries a `T`.
proof fn lemma_frame_was_not<T: Payload>(before: Record, after: Record, fault: DecodeFault)
    requires
        recv_refused::<T>(before, after, fault),
    ensures
        !frame_was::<T>(before, after),
{
    lemma_fault_entry::<T>(before, after, fault);
    if frame_was::<T>(before, after) {
        let frame = choose|frame: Seq<u8>|
            {
                &&& #[trigger] gave(before, after, frame)
                &&& is_frame(frame)
                &&& T::carried(frame) is Some
            };
        match fault {
            DecodeFault::Marker(marker) => {
                lemma_gave_the_same(before, after, frame, seq![marker]);
            },
            DecodeFault::Codec(_) => {
                let other = choose|other: Seq<u8>|
                    {
                        &&& #[trigger] gave(before, after, other)
                        &&& is_frame(other)
                        &&& T::carried(other) is None
                    };
                lemma_gave_the_same(before, after, frame, other);
            },
            _ => {
                lemma_gave(before, after, frame);
            },
        }
    }
}

/// A stream cut short. Where the stream ends before the frame is whole, the
/// receive fails with a decode error: the stream was closed, where it ended
/// before the first byte of the frame, else the frame is truncated. The
/// carrier is then no longer intact, and no operation takes it.
pub proof fn law_cut_stream_is_refused<T: Payload>(
    before: Channel,
    after: Channel,
    r: Result<T, RecvError>,
    part: Seq<u8>,
)
    requires
        recv_outcome(before, after, r),
        is_partial(part),
        gave_then(before.stream(), after.stream(), part, Io::Took(None)),
    ensures
        !after.intact(),
        r matches Err(RecvError::Decode(fault)) && if part.len() == 0 {
            fault is Closed
        } else {
            fault is Truncated
        },
{
    lemma_last_entry(before, after, r);
    assert(after.stream().last() == Io::Took(None));
    assert(after.stream().len() == before.stream().len() + part.len() + 1);
}

/// A refused read is a stream fault, and carries the stream's error. Where the
/// record shows that the stream gave the beginning of a frame, or nothing, and
/// then refused the next byte with the error `e`, the receive failed with the
/// fault `Stream(e)`.
pub proof fn law_refused_read_is_a_stream_fault<T: Payload>(
    before: Channel,
    after: Channel,
    r: Result<T, RecvError>,
    part: Seq<u8>,
    e: std::io::Error,
)
    requires
        recv_outcome(before, after, r),
        is_partial(part),
        gave_then(before.stream(), after.stream(), part, Io::TakeRefused(e)),
    ensures
        r == Err::<T, RecvError>(RecvError::Decode(DecodeFault::Stream(e))),
        !after.intact(),
{
    lemma_last_entry(before, after, r);
    assert(after.stream().last() == Io::TakeRefused(e));
}

/// A whole frame is received. Where the stream gives the bytes of one whole
/// frame that carries a `T`, and is asked for nothing else, the receive
/// succeeds and returns the value that the frame carries.
pub proof fn law_whole_frame_is_received<T: Payload>(
    before: Channel,
    after: Channel,
    r: Result<T, RecvError>,
    frame: Seq<u8>,
)
    requires
        recv_outcome(before, after, r),
        is_frame(frame),
        T::carried(frame) is Some,
        gave(before.stream(), after.stream(), frame),
    ensures
        r matches Ok(value) && T::carried(frame) == Some(value),
        after.intact(),
        after.transcript() == before.transcript().push(Event::Received(frame)),
{
    let old = before.stream();
    let new = after.stream();
    assert(frame_was::<T>(old, new));
    match r {
        Ok(value) => {
            lemma_gave_the_same(old, new, frame, after.transcript().last().frame());
            assert(after.transcript() =~= before.transcript().push(Event::Received(frame)));
        },
        Err(RecvError::Decode(fault)) => {
            lemma_frame_was_not::<T>(old, new, fault);
        },
    }
}

/// A send asks once, and succeeds where nothing is refused. Whatever comes of
/// a send, the stream was asked for at most one write and one flush, and for
/// no byte. The send succeeded exactly where the value is encodable and the
/// write and the flush both stand in the record as done. It failed with an
/// encode error exactly where the value is not encodable, and the stream was
/// then asked nothing.
pub proof fn law_send_asks_once<T: Payload>(
    before: Channel,
    after: Channel,
    value: T,
    r: Result<(), SendError>,
)
    requires
        sent(before, after, value, r),
    ensures
        r is Ok <==> value.encodable() && after.stream() == before.stream().push(
            Io::Wrote(value.frame()),
        ).push(Io::Flushed),
        r matches Err(SendError::Encode(_)) <==> !value.encodable(),
        !value.encodable() ==> after.stream() == before.stream(),
        before.stream().is_prefix_of(after.stream()),
        after.stream().len() <= before.stream().len() + 2,
        forall|i: int|
            before.stream().len() <= i < after.stream().len() ==> !(#[trigger] after.stream()[i]
                is Took) && !(after.stream()[i] is TakeRefused),
{
    let old = before.stream();
    let new = after.stream();
    let frame = value.frame();
    assert(old + seq![Io::Wrote(frame), Io::Flushed] =~= old.push(Io::Wrote(frame)).push(
        Io::Flushed,
    ));
    match r {
        Err(SendError::Flush(e)) => {
            if new == old.push(Io::WriteRefused(frame, e)) {
                assert(new.len() == old.len() + 1);
            } else {
                assert(new.last() == Io::FlushRefused(e));
                assert(old.push(Io::Wrote(frame)).push(Io::Flushed).last() == Io::Flushed);
            }
        },
        _ => {},
    }
}

/// A refused write or flush is a flush error, and carries the stream's error.
/// Where the value is encodable and the record shows that the stream refused
/// the write of its frame, or took the write and refused the flush, with the
/// error `e`, the send failed with `Flush(e)`: not with an encode error, and
/// not with another error.
pub proof fn law_refused_write_is_a_flush_error<T: Payload>(
    before: Channel,
    after: Channel,
    value: T,
    r: Result<(), SendError>,
    e: std::io::Error,
)
    requires
        sent(before, after, value, r),
        after.stream() == before.stream().push(Io::WriteRefused(value.frame(), e))
            || after.stream() == before.stream().push(Io::Wrote(value.frame())).push(
            Io::FlushRefused(e),
        ),
    ensures
        r == Err::<(), SendError>(SendError::Flush(e)),
        !after.intact(),
        after.transcript() == before.transcript(),
{
    let old = before.stream();
    let new = after.stream();
    let frame = value.frame();
    law_send_asks_once(before, after, value, r);
    if new == old.push(Io::WriteRefused(frame, e)) {
        assert(new.len() == old.len() + 1);
        assert(new.last() == Io::WriteRefused(frame, e));
    } else {
        assert(new.len() == old.len() + 2);
        assert(new.last() == Io::FlushRefused(e));
    }
    match r {
        Err(SendError::Flush(other)) => {
            if new == old.push(Io::WriteRefused(frame, other)) {
                assert(new.last() == Io::WriteRefused(frame, other));
            } else {
                assert(new.last() == Io::FlushRefused(other));
            }
        },
        _ => {},
    }
}

/// A turn fails on a fault only. Where an operation of a session failed, the
/// record of the stream ends with the fault: a write or a flush that the
/// stream refused, whose error the failure carries; a read that the stream
/// refused, likewise, or that met the end of the stream; or the last byte of
/// what the peer sent, where that opens no frame or carries no value of the
/// kind awaited. No turn fails with an encode error. So a session whose
/// stream refuses nothing and does not end, and whose peer sends what is
/// awaited, does not break off at the carrier.
pub proof fn law_a_turn_fails_on_a_fault(
    before: Record,
    after: Record,
    turn: Turn,
    error: SessionError,
)
    requires
        turn_refused(before, after, turn, error),
        !(turn is Finished),
    ensures
        after.len() >= before.len() + 1,
        match error {
            SessionError::Send(SendError::Flush(e)) => {
                ||| after.last() matches Io::WriteRefused(_, refusal) && refusal == e
                ||| after.last() == Io::FlushRefused(e)
            },
            SessionError::Recv(RecvError::Decode(DecodeFault::Closed)) => after.last()
                == Io::Took(None),
            SessionError::Recv(RecvError::Decode(DecodeFault::Truncated)) => after.last()
                == Io::Took(None),
            SessionError::Recv(RecvError::Decode(DecodeFault::Stream(e))) => after.last()
                == Io::TakeRefused(e),
            SessionError::Recv(RecvError::Decode(DecodeFault::Marker(marker))) => {
                &&& tail_len(marker) is None
                &&& after.last() == Io::Took(Some(marker))
            },
            SessionError::Recv(RecvError::Decode(DecodeFault::Codec(_))) => turn
                is RecvChoice && !frame_was::<bool>(before, after) || turn is RecvValue
                && !frame_was::<i64>(before, after) || turn is RecvIndex && !frame_was::<u64>(
                before,
                after,
            ),
            _ => false,
        },
{
    match (turn, error) {
        (Turn::RecvChoice, SessionError::Recv(RecvError::Decode(fault))) => {
            lemma_fault_entry::<bool>(before, after, fault);
            lemma_frame_was_not::<bool>(before, after, fault);
        },
        (Turn::RecvValue, SessionError::Recv(RecvError::Decode(fault))) => {
            lemma_fault_entry::<i64>(before, after, fault);
            lemma_frame_was_not::<i64>(before, after, fault);
        },
        (Turn::RecvIndex, SessionError::Recv(RecvError::Decode(fault))) => {
            lemma_fault_entry::<u64>(before, after, fault);
            lemma_frame_was_not::<u64>(before, after, fault);
        },
        _ => {},
    }
}

/// None of the first `upto` of `values` equals `sample`.
pub open spec fn none_before(values: Seq<i64>, sample: i64, upto: int) -> bool {
    forall|j: int| 0 <= j < upto ==> values[j] != sample
}

/// The states in which the client and the server of one search stand
/// together: they are at the same point of the session, the server holds the
/// client's sample, has counted the candidates that the client has got
/// through, and none of those equalled the sample.
pub open spec fn paired(
    sample: i64,
    values: Seq<i64>,
    client: ClientState,
    server: ServerState,
) -> bool {
    match (client, server) {
        (ClientState::Start, ServerState::Start) => true,
        (ClientState::SendSample, ServerState::ReceiveSample) => true,
        (ClientState::Offer { next }, ServerState::ScanOffer { sample: held, seen }) => {
            &&& held == sample
            &&& seen == next
            &&& next <= values.len()
            &&& none_before(values, sample, next as int)
        },
        (
            ClientState::SendCandidate { at },
            ServerState::ReceiveCandidate { sample: held, seen },
        ) => {
            &&& held == sample
            &&& seen == at
            &&& at < values.len()
            &&& none_before(values, sample, at as int)
        },
        (
            ClientState::AwaitVerdict { at },
            ServerState::Compare { sample: held, seen, candidate },
        ) => {
            &&& held == sample
            &&& seen == at
            &&& at < values.len()
            &&& candidate == values[at as int]
            &&& none_before(values, sample, at as int)
        },
        (ClientState::AwaitIndex, ServerState::Match { index }) => is_first_match(
            values,
            sample,
            Some(index),
        ),
        (ClientState::Terminal { found }, ServerState::Terminal { stop }) => {
            &&& !stop
            &&& is_first_match(values, sample, found)
        },
        _ => false,
    }
}

/// One event, taken by both sides, leads from states that stand together to
/// states that stand together.
proof fn lemma_paired_step(
    sample: i64,
    values: Seq<i64>,
    client: ClientState,
    server: ServerState,
    event: Event,
)
    requires
        values.len() <= usize::MAX,
        paired(sample, values, client, server),
        signal_of(client.turn(sample, values), event) is Some,
        client.next(values.len(), signal_of(client.turn(sample, values), event).unwrap()) is Ok,
        signal_of(server.turn(), event.mirrored()) is Some,
        server.next(signal_of(server.turn(), event.mirrored()).unwrap()) is Ok,
    ensures
        paired(
            sample,
            values,
            client.next(
                values.len(),
                signal_of(client.turn(sample, values), event).unwrap(),
            ).unwrap(),
            server.next(signal_of(server.turn(), event.mirrored()).unwrap()).unwrap(),
        ),
{
    lemma_bool_round_trip(true);
    lemma_bool_round_trip(false);
    lemma_int_round_trip(sample);
    match (client, server) {
        (ClientState::SendCandidate { at }, _) => {
            lemma_int_round_trip(values[at as int]);
        },
        (_, ServerState::Match { index }) => {
            lemma_uint_round_trip(index);
        },
        _ => {},
    }
}

/// After any transcript that both sides accept, each from its own end, the two
/// stand together.
proof fn lemma_paired(sample: i64, values: Seq<i64>, transcript: Seq<Event>)
    requires
        values.len() <= usize::MAX,
        client_after(ClientState::Start, sample, values, transcript) is Some,
        server_after(ServerState::Start, mirror(transcript)) is Some,
    ensures
        paired(
            sample,
            values,
            client_after(ClientState::Start, sample, values, transcript).unwrap(),
            server_after(ServerState::Start, mirror(transcript)).unwrap(),
        ),
    decreases transcript.len(),
{
    if transcript.len() > 0 {
        let earlier = transcript.drop_last();
        assert(mirror(transcript).drop_last() =~= mirror(earlier));
        assert(mirror(transcript).last() == transcript.last().mirrored());
        lemma_paired(sample, values, earlier);
        lemma_paired_step(
            sample,
            values,
            client_after(ClientState::Start, sample, values, earlier).unwrap(),
            server_after(ServerState::Start, mirror(earlier)).unwrap(),
            transcript.last(),
        );
    }
}

/// The search finds the first match. Take any transcript that is one whole
/// session of a client searching for `sample` among `values` and, seen from
/// the other end, one whole session of the server. Then what the client
/// returns is the index of the first of `values` that equals `sample`, or
/// nothing where none does; and the server goes on serving.
pub proof fn law_search_finds_first(sample: i64, values: Seq<i64>, transcript: Seq<Event>)
    requires
        values.len() <= usize::MAX,
        client_session(sample, values, transcript) is Some,
        server_session(mirror(transcript)) is Some,
    ensures
        is_first_match(values, sample, client_session(sample, values, transcript).unwrap()),
        server_session(mirror(transcript)) == Some(false),
{
    lemma_paired(sample, values, transcript);
}

/// The index of the first of `values`, from `from` on, that equals `sample`;
/// the length of `values` where none does.
pub open spec fn first_at(values: Seq<i64>, sample: i64, from: nat) -> nat
    decreases values.len() - from,
{
    if from >= values.len() {
        values.len()
    } else if values[from as int] == sample {
        from
    } else {
        first_at(values, sample, from + 1)
    }
}

/// The events of a search, seen from the client, up to the point where
/// `count` candidates have been sent and found to differ from the sample.
pub open spec fn scanned(sample: i64, values: Seq<i64>, count: nat) -> Seq<Event>
    decreases count,
{
    if count == 0 {
        seq![Event::Sent(PROCEED.frame()), Event::Sent(sample.frame())]
    } else {
        scanned(sample, values, (count - 1) as nat).push(Event::Sent(HAS_NEXT.frame())).push(
            Event::Sent(values[count - 1].frame()),
        ).push(Event::Received(MISS.frame()))
    }
}

/// The events of the whole search for `sample` among `values`, seen from the
/// client, where both sides keep to the protocol: the candidates up to the
/// first match, each answered by a miss; then the match, answered by its
/// index, or, where there is none, the client's word that it is done.
pub open spec fn conversation(sample: i64, values: Seq<i64>) -> Seq<Event> {
    let at = first_at(values, sample, 0);
    if at < values.len() {
        scanned(sample, values, at).push(Event::Sent(HAS_NEXT.frame())).push(
            Event::Sent(values[at as int].frame()),
        ).push(Event::Received(FOUND.frame())).push(Event::Received((at as u64).frame()))
    } else {
        scanned(sample, values, at).push(Event::Sent(DONE.frame()))
    }
}

/// `first_at` is the first match from `from` on.
proof fn lemma_first_at(values: Seq<i64>, sample: i64, from: nat)
    requires
        from <= values.len(),
    ensures
        from <= first_at(values, sample, from) <= values.len(),
        forall|j: int| from <= j < first_at(values, sample, from) ==> values[j] != sample,
        first_at(values, sample, from) < values.len() ==> values[first_at(values, sample, from) as int]
            == sample,
    decreases values.len() - from,
{
    if from < values.len() && values[from as int] != sample {
        lemma_first_at(values, sample, from + 1);
    }
}

/// One more event: where each side stands after it follows from where it
/// stood before.
proof fn lemma_one_more(sample: i64, values: Seq<i64>, transcript: Seq<Event>, event: Event)
    ensures
        client_after(ClientState::Start, sample, values, transcript.push(event)) == match client_after(
            ClientState::Start,
            sample,
            values,
            transcript,
        ) {
            Some(before) => match signal_of(before.turn(sample, values), event) {
                Some(signal) => match before.next(values.len(), signal) {
                    Ok(after) => Some(after),
                    Err(_) => None,
                },
                None => None,
            },
            None => None,
        },
        server_after(ServerState::Start, mirror(transcript.push(event))) == match server_after(
            ServerState::Start,
            mirror(transcript),
        ) {
            Some(before) => match signal_of(before.turn(), event.mirrored()) {
                Some(signal) => match before.next(signal) {
                    Ok(after) => Some(after),
                    Err(_) => None,
                },
                None => None,
            },
            None => None,
        },
{
    assert(transcript.push(event).drop_last() =~= transcript);
    assert(mirror(transcript.push(event)).drop_last() =~= mirror(transcript));
    assert(mirror(transcript.push(event)).last() == event.mirrored());
}

/// After the opening and `count` misses, the client is about to offer the
/// candidate at `count`, and the server has counted `count` candidates.
proof fn lemma_scanned(sample: i64, values: Seq<i64>, count: nat)
    requires
        count <= values.len() <= usize::MAX,
        forall|j: int| 0 <= j < count ==> values[j] != sample,
    ensures
        client_after(ClientState::Start, sample, values, scanned(sample, values, count)) == Some(
            ClientState::Offer { next: count as usize },
        ),
        server_after(ServerState::Start, mirror(scanned(sample, values, count))) == Some(
            ServerState::ScanOffer { sample, seen: count as u64 },
        ),
    decreases count,
{
    lemma_bool_round_trip(true);
    lemma_bool_round_trip(false);
    lemma_int_round_trip(sample);
    if count == 0 {
        let none = Seq::<Event>::empty();
        let one = none.push(Event::Sent(PROCEED.frame()));
        assert(scanned(sample, values, 0) =~= one.push(Event::Sent(sample.frame())));
        assert(mirror(none) =~= none);
        lemma_one_more(sample, values, none, Event::Sent(PROCEED.frame()));
        lemma_one_more(sample, values, one, Event::Sent(sample.frame()));
    } else {
        let candidate = values[count - 1];
        let zero = scanned(sample, values, (count - 1) as nat);
        let one = zero.push(Event::Sent(HAS_NEXT.frame()));
        let two = one.push(Event::Sent(candidate.frame()));
        lemma_scanned(sample, values, (count - 1) as nat);
        lemma_int_round_trip(candidate);
        lemma_one_more(sample, values, zero, Event::Sent(HAS_NEXT.frame()));
        lemma_one_more(sample, values, one, Event::Sent(candidate.frame()));
        lemma_one_more(sample, values, two, Event::Received(MISS.frame()));
    }
}

/// Every search can be held. Whatever the sample and the values, the
/// conversation in which both sides keep to the protocol is one whole session
/// of the client and, seen from the other end, one whole session of the
/// server; the client returns the first match, and the server goes on serving.
pub proof fn law_search_can_be_held(sample: i64, values: Seq<i64>)
    requires
        values.len() <= usize::MAX,
    ensures
        client_session(sample, values, conversation(sample, values)) is Some,
        server_session(mirror(conversation(sample, values))) == Some(false),
        is_first_match(
            values,
            sample,
            client_session(sample, values, conversation(sample, values)).unwrap(),
        ),
{
    let at = first_at(values, sample, 0);
    lemma_first_at(values, sample, 0);
    lemma_scanned(sample, values, at);
    lemma_bool_round_trip(true);
    lemma_bool_round_trip(false);
    let zero = scanned(sample, values, at);
    if at < values.len() {
        let candidate = values[at as int];
        let one = zero.push(Event::Sent(HAS_NEXT.frame()));
        let two = one.push(Event::Sent(candidate.frame()));
        let three = two.push(Event::Received(FOUND.frame()));
        lemma_int_round_trip(candidate);
        lemma_uint_round_trip(at as u64);
        lemma_one_more(sample, values, zero, Event::Sent(HAS_NEXT.frame()));
        lemma_one_more(sample, values, one, Event::Sent(candidate.frame()));
        lemma_one_more(sample, values, two, Event::Received(FOUND.frame()));
        lemma_one_more(sample, values, three, Event::Received((at as u64).frame()));
    } else {
        lemma_one_more(sample, values, zero, Event::Sent(DONE.frame()));
    }
    law_search_finds_first(sample, values, conversation(sample, values));
}

/// No event leads the server back to the start of a session.
proof fn lemma_server_start_is_first(transcript: Seq<Event>)
    requires
        server_after(ServerState::Start, transcript) == Some(ServerState::Start),
    ensures
        transcript.len() == 0,
{
}

/// The quit path. A session of the server ends with the order to stop serving
/// exactly where it consists of one event: the client's choice to quit,
/// received. The server has then received nothing else and sent nothing.
pub proof fn law_quit_stops_server(transcript: Seq<Event>)
    ensures
        server_session(transcript) == Some(true) <==> {
            &&& transcript.len() == 1
            &&& signal_of(ServerState::Start.turn(), transcript[0]) == Some(Signal::Choice(QUIT))
        },
{
    if transcript.len() > 0 {
        let earlier = transcript.drop_last();
        if server_after(ServerState::Start, earlier) == Some(ServerState::Start) {
            lemma_server_start_is_first(earlier);
        }
        if transcript.len() == 1 {
            assert(earlier.len() == 0);
        }
    }
}

/// The client's request to quit, seen from the server's end, is one whole
/// session that ends with the order to stop serving.
pub proof fn law_quit_request_is_obeyed()
    ensures
        server_session(mirror(seq![Event::Sent(QUIT.frame())])) == Some(true),
{
    let request = seq![Event::Sent(QUIT.frame())];
    lemma_bool_round_trip(QUIT);
    assert(mirror(request).len() == 1);
    assert(mirror(request)[0] == Event::Received(QUIT.frame()));
    law_quit_stops_server(mirror(request));
}

/// Every session of the server ends. Whatever the client sends, the events
/// that the server takes from a state on are no more than the rank of that
/// state, less the rank of the state they lead to.
pub proof fn law_server_session_is_finite(state: ServerState, transcript: Seq<Event>)
    requires
        server_after(state, transcript) is Some,
    ensures
        transcript.len() + server_after(state, transcript).unwrap().rank() <= state.rank(),
    decreases transcript.len(),
{
    if transcript.len() > 0 {
        law_server_session_is_finite(state, transcript.drop_last());
    }
}

/// Every session of the client ends. Whatever the server sends, the events
/// that a client takes in a search among `values` are no more than three for
/// each value and six besides.
pub proof fn law_client_session_is_finite(sample: i64, values: Seq<i64>, transcript: Seq<Event>)
    requires
        values.len() <= usize::MAX,
        client_after(ClientState::Start, sample, values, transcript) is Some,
    ensures
        client_after(ClientState::Start, sample, values, transcript).unwrap().wf(values.len()),
        transcript.len() + client_after(
            ClientState::Start,
            sample,
            values,
            transcript,
        ).unwrap().rank(values.len()) <= 3 * values.len() + 6,
    decreases transcript.len(),
{
    if transcript.len() > 0 {
        law_client_session_is_finite(sample, values, transcript.drop_last());
    }
}

/// The state after two stretches of events is the state after the second,
/// taken from where the first led.
proof fn lemma_server_extends(state: ServerState, first: Seq<Event>, rest: Seq<Event>)
    ensures
        server_after(state, first + rest) == match server_after(state, first) {
            Some(between) => server_after(between, rest),
            None => None,
        },
    decreases rest.len(),
{
    if rest.len() == 0 {
        assert(first + rest =~= first);
    } else {
        assert((first + rest).drop_last() =~= first + rest.drop_last());
        lemma_server_extends(state, first, rest.drop_last());
    }
}

/// The state after two stretches of events is the state after the second,
/// taken from where the first led.
proof fn lemma_client_extends(
    state: ClientState,
    sample: i64,
    values: Seq<i64>,
    first: Seq<Event>,
    rest: Seq<Event>,
)
    ensures
        client_after(state, sample, values, first + rest) == match client_after(
            state,
            sample,
            values,
            first,
        ) {
            Some(between) => client_after(between, sample, values, rest),
            None => None,
        },
    decreases rest.len(),
{
    if rest.len() == 0 {
        assert(first + rest =~= first);
    } else {
        assert((first + rest).drop_last() =~= first + rest.drop_last());
        lemma_client_extends(state, sample, values, first, rest.drop_last());
    }
}

/// Once the server's session is over, it accepts no event.
proof fn lemma_server_rests(stop: bool, transcript: Seq<Event>)
    requires
        server_after(ServerState::Terminal { stop }, transcript) is Some,
    ensures
        transcript.len() == 0,
    decreases transcript.len(),
{
    if transcript.len() > 0 {
        lemma_server_rests(stop, transcript.drop_last());
    }
}

/// Once the client's session is over, it accepts no event.
proof fn lemma_client_rests(
    found: Option<u64>,
    sample: i64,
    values: Seq<i64>,
    transcript: Seq<Event>,
)
    requires
        client_after(ClientState::Terminal { found }, sample, values, transcript) is Some,
    ensures
        transcript.len() == 0,
    decreases transcript.len(),
{
    if transcript.len() > 0 {
        lemma_client_rests(found, sample, values, transcript.drop_last());
    }
}

/// A session ends where it ends: no event that follows a whole session of the
/// server belongs to it. What a carrier exchanges after a session is therefore
/// read from the start of a new one, with nothing counted and no sample held.
pub proof fn law_server_session_is_closed(session: Seq<Event>, rest: Seq<Event>)
    requires
        server_session(session) is Some,
        server_after(ServerState::Start, session + rest) is Some,
    ensures
        rest.len() == 0,
{
    lemma_server_extends(ServerState::Start, session, rest);
    match server_after(ServerState::Start, session) {
        Some(ServerState::Terminal { stop }) => {
            lemma_server_rests(stop, rest);
        },
        _ => {},
    }
}

/// A session ends where it ends: no event that follows a whole session of the
/// client belongs to it.
pub proof fn law_client_session_is_closed(
    sample: i64,
    values: Seq<i64>,
    session: Seq<Event>,
    rest: Seq<Event>,
)
    requires
        client_session(sample, values, session) is Some,
        client_after(ClientState::Start, sample, values, session + rest) is Some,
    ensures
        rest.len() == 0,
{
    lemma_client_extends(ClientState::Start, sample, values, session, rest);
    match client_after(ClientState::Start, sample, values, session) {
        Some(ClientState::Terminal { found }) => {
            lemma_client_rests(found, sample, values, rest);
        },
        _ => {},
    }
}

/// Sequential reuse. Two searches run one after the other over one carrier,
/// each a whole session for the client and, seen from the other end, for the
/// server. Then each returns the first match of its own sample among its own
/// values: nothing of the first search shows in the result of the second.
pub proof fn law_sessions_do_not_mix(
    first_sample: i64,
    first_values: Seq<i64>,
    first: Seq<Event>,
    second_sample: i64,
    second_values: Seq<i64>,
    second: Seq<Event>,
)
    requires
        first_values.len() <= usize::MAX,
        second_values.len() <= usize::MAX,
        client_session(first_sample, first_values, first) is Some,
        server_session(mirror(first)) is Some,
        client_session(second_sample, second_values, second) is Some,
        server_session(mirror(second)) is Some,
    ensures
        is_first_match(
            first_values,
            first_sample,
            client_session(first_sample, first_values, first).unwrap(),
        ),
        is_first_match(
            second_values,
            second_sample,
            client_session(second_sample, second_values, second).unwrap(),
        ),
{
    law_search_finds_first(first_sample, first_values, first);
    law_search_finds_first(second_sample, second_values, second);
}

} // verus!
