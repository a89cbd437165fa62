//! The endpoint drivers: each walks its machine over a carrier, from the
//! start of a session to its end, and leaves the carrier fit for the next.

use vstd::prelude::*;
use crate::carrier::{
    io_of, recv_refused, send_refused, traffic, Channel, Event, Record, RecvError, SendError,
    Value,
};
use crate::codec::Payload;
use crate::laws::law_quit_stops_server;

use crate::protocol::{
    client_after, client_session, server_after, server_session, signal_of, ClientState,
    ProtocolViolation, ServerState, Signal, Turn, QUIT,
};

verus! {

/// Why a session broke off.
#[derive(Debug)]
pub enum SessionError {
    /// A value could not be sent.
    Send(SendError),
    /// A value could not be received.
    Recv(RecvError),
    /// A machine refused a signal.
    Protocol(ProtocolViolation),
}

/// The events of `after` that `before` does not have yet.
pub open spec fn appended(before: Seq<Event>, after: Seq<Event>) -> Seq<Event> {
    after.skip(before.len() as int)
}

/// What the operation `turn` asked of the stream where it failed with
/// `error`. A turn to send fails as a send of its frame does, a turn to
/// receive as a receive of the kind awaited does. The turn that ends a session
/// is no operation: it is refused as out of turn, and nothing is asked.
pub open spec fn turn_refused(before: Record, after: Record, turn: Turn, error: SessionError) -> bool {
    match (turn, error) {
        (Turn::SendChoice(choice), SessionError::Send(e)) => send_refused(
            before,
            after,
            choice,
            e,
        ),
        (Turn::SendValue(value), SessionError::Send(e)) => send_refused(before, after, value, e),
        (Turn::SendIndex(index), SessionError::Send(e)) => send_refused(before, after, index, e),
        (Turn::RecvChoice, SessionError::Recv(RecvError::Decode(fault))) => recv_refused::<bool>(
            before,
            after,
            fault,
        ),
        (Turn::RecvValue, SessionError::Recv(RecvError::Decode(fault))) => recv_refused::<i64>(
            before,
            after,
            fault,
        ),
        (Turn::RecvIndex, SessionError::Recv(RecvError::Decode(fault))) => recv_refused::<u64>(
            before,
            after,
            fault,
        ),
        (Turn::Finished, SessionError::Protocol(violation)) => violation is OutOfTurn && after
            == before,
        _ => false,
    }
}

/// Whether a carrier is still intact after the failure `error`: it is where
/// nothing was asked of the stream, because the encoder refused the value or
/// the turn was none.
pub open spec fn spares(error: SessionError) -> bool {
    match error {
        SessionError::Send(SendError::Encode(_)) => true,
        SessionError::Protocol(_) => true,
        _ => false,
    }
}

/// What the operation `turn` leaves behind where it failed with `error`: the
/// transcript is as it was, the stream was asked what `turn_refused` says, and
/// the carrier is intact only where nothing was asked of the stream.
pub open spec fn broke(before: Channel, after: Channel, turn: Turn, error: SessionError) -> bool {
    &&& after.transcript() == before.transcript()
    &&& after.intact() == spares(error)
    &&& turn_refused(before.stream(), after.stream(), turn, error)
}

/// Performs the operation `turn` on the carrier and returns the signal that it
/// brings. On success the transcript has grown by the one event of that
/// operation, and the stream has done what that event asks, no more. There is
/// nothing to perform once a session is over: that turn is refused.
pub fn perform(carrier: &mut Channel, turn: Turn) -> (r: Result<Signal, SessionError>)
    requires
        old(carrier).intact(),
    ensures
        match r {
            Ok(signal) => {
                &&& final(carrier).intact()
                &&& final(carrier).transcript().len() == old(carrier).transcript().len() + 1
                &&& final(carrier).transcript().drop_last() == old(carrier).transcript()
                &&& signal_of(turn, final(carrier).transcript().last()) == Some(signal)
                &&& final(carrier).stream() == old(carrier).stream() + io_of(
                    final(carrier).transcript().last(),
                )
            },
            Err(error) => broke(*old(carrier), *final(carrier), turn, error),
        },
{
    match turn {
        Turn::RecvChoice => match carrier.recv_choice() {
            Ok(choice) => Ok(Signal::Choice(choice)),
            Err(e) => Err(SessionError::Recv(e)),
        },
        Turn::RecvValue => match Value::<i64>::recv(carrier) {
            Ok(value) => Ok(Signal::Value(value.get())),
            Err(e) => Err(SessionError::Recv(e)),
        },
        Turn::RecvIndex => match Value::<u64>::recv(carrier) {
            Ok(index) => Ok(Signal::Index(index.get())),
            Err(e) => Err(SessionError::Recv(e)),
        },
        Turn::SendChoice(choice) => match carrier.send_choice(choice) {
            Ok(()) => Ok(Signal::Sent),
            Err(e) => Err(SessionError::Send(e)),
        },
        Turn::SendValue(value) => match Value::new(value).send(carrier) {
            Ok(()) => Ok(Signal::Sent),
            Err(e) => Err(SessionError::Send(e)),
        },
        Turn::SendIndex(index) => match Value::new(index).send(carrier) {
            Ok(()) => Ok(Signal::Sent),
            Err(e) => Err(SessionError::Send(e)),
        },
        Turn::Finished => Err(SessionError::Protocol(ProtocolViolation::OutOfTurn)),
    }
}

/// Where a session of the server broke off, and why. `transcript` holds the
/// events since the session began, `before` and `after` the records of the
/// stream at its beginning and at the failure.
///
/// The carrier could not send or receive: the events had led the server to a
/// state whose turn that was, and the stream was asked what those events ask,
/// then what the failed operation asked, and no more. Or the server's machine
/// refused the last event: the events before it had led to a state that takes
/// its signal so, and the stream was asked what the events ask, and no more.
pub open spec fn server_broke_off(
    transcript: Seq<Event>,
    error: SessionError,
    before: Record,
    after: Record,
) -> bool {
    match error {
        SessionError::Protocol(violation) => {
            &&& transcript.len() >= 1
            &&& server_after(ServerState::Start, transcript.drop_last()) matches Some(state)
            &&& signal_of(state.turn(), transcript.last()) matches Some(signal)
            &&& state.next(signal) == Err::<ServerState, _>(violation)
            &&& violation is TooManyCandidates
            &&& after == before + traffic(transcript)
        },
        _ => {
            &&& server_after(ServerState::Start, transcript) matches Some(state)
            &&& turn_refused(before + traffic(transcript), after, state.turn(), error)
        },
    }
}

/// Where a session of a client that searches for `sample` among `values` broke
/// off, and why. `transcript` holds the events since the session began,
/// `before` and `after` the records of the stream at its beginning and at the
/// failure.
///
/// The carrier could not send or receive: the events had led the client to a
/// state whose turn that was, and the stream was asked what those events ask,
/// then what the failed operation asked, and no more. The client's machine
/// refuses nothing that its driver brings.
pub open spec fn client_broke_off(
    sample: i64,
    values: Seq<i64>,
    transcript: Seq<Event>,
    error: SessionError,
    before: Record,
    after: Record,
) -> bool {
    &&& !(error is Protocol)
    &&& client_after(ClientState::Start, sample, values, transcript) matches Some(state)
    &&& turn_refused(before + traffic(transcript), after, state.turn(sample, values), error)
}

/// Serves one session, from its start to its end, and says whether the client
/// asked the server to stop serving. The carrier is then fit for the next
/// session: what it has exchanged since the call is one whole session of the
/// server, and the stream has done what those events ask, no more. Where the
/// client asked the server to stop, that choice is all that was exchanged.
///
/// An error breaks the session off where it occurs, and nothing more is asked
/// of the stream. The carrier is then no longer intact; its transcript shows
/// how far the session went.
pub fn run_server(carrier: &mut Channel) -> (r: Result<bool, SessionError>)
    requires
        old(carrier).intact(),
    ensures
        old(carrier).transcript().is_prefix_of(final(carrier).transcript()),
        match r {
            Ok(stop) => {
                &&& final(carrier).intact()
                &&& server_session(
                    appended(old(carrier).transcript(), final(carrier).transcript()),
                ) == Some(stop)
                &&& final(carrier).stream() == old(carrier).stream() + traffic(
                    appended(old(carrier).transcript(), final(carrier).transcript()),
                )
                &&& stop ==> final(carrier).transcript().len() == old(carrier).transcript().len()
                    + 1
            },
            Err(error) => {
                &&& !final(carrier).intact()
                &&& server_broke_off(
                    appended(old(carrier).transcript(), final(carrier).transcript()),
                    error,
                    old(carrier).stream(),
                    final(carrier).stream(),
                )
            },
        },
{
    let ghost before = carrier.transcript();
    let ghost stream = carrier.stream();
    let mut state = ServerState::Start;
    loop
        invariant
            carrier.intact(),
            before == old(carrier).transcript(),
            stream == old(carrier).stream(),
            before.is_prefix_of(carrier.transcript()),
            server_after(ServerState::Start, appended(before, carrier.transcript())) == Some(state),
            carrier.stream() == stream + traffic(appended(before, carrier.transcript())),
        decreases state.rank(),
    {
        if let ServerState::Terminal { stop } = state {
            proof {
                law_quit_stops_server(appended(before, carrier.transcript()));
            }
            return Ok(stop);
        }
        let ghost earlier = carrier.transcript();
        let signal = match perform(carrier, state.on_turn()) {
            Ok(signal) => signal,
            Err(e) => {
                carrier.give_up();
                return Err(e);
            },
        };
        proof {
            assert(appended(before, carrier.transcript()).drop_last() =~= appended(
                before,
                earlier,
            ));
            assert(carrier.stream() =~= stream + traffic(appended(before, carrier.transcript())));
        }
        state =
        match state.step(signal) {
            Ok(state) => state,
            Err(violation) => {
                carrier.give_up();
                return Err(SessionError::Protocol(violation));
            },
        };
    }
}

/// Runs one session of a client that searches for `sample` among `values`, and
/// returns the index that the server reported, if it reported one. The carrier
/// is then fit for the next session: what it has exchanged since the call is
/// one whole session of such a client, and the stream has done what those
/// events ask, no more.
///
/// An error breaks the session off where it occurs, and nothing more is asked
/// of the stream. The carrier is then no longer intact; its transcript shows
/// how far the session went.
pub fn run_client(carrier: &mut Channel, sample: i64, values: &[i64]) -> (r: Result<
    Option<u64>,
    SessionError,
>)
    requires
        old(carrier).intact(),
    ensures
        old(carrier).transcript().is_prefix_of(final(carrier).transcript()),
        match r {
            Ok(found) => {
                &&& final(carrier).intact()
                &&& client_session(
                    sample,
                    values@,
                    appended(old(carrier).transcript(), final(carrier).transcript()),
                ) == Some(found)
                &&& final(carrier).stream() == old(carrier).stream() + traffic(
                    appended(old(carrier).transcript(), final(carrier).transcript()),
                )
            },
            Err(error) => {
                &&& !final(carrier).intact()
                &&& client_broke_off(
                    sample,
                    values@,
                    appended(old(carrier).transcript(), final(carrier).transcript()),
                    error,
                    old(carrier).stream(),
                    final(carrier).stream(),
                )
            },
        },
{
    let ghost before = carrier.transcript();
    let ghost stream = carrier.stream();
    let mut state = ClientState::Start;
    loop
        invariant
            carrier.intact(),
            before == old(carrier).transcript(),
            stream == old(carrier).stream(),
            state.wf(values@.len()),
            before.is_prefix_of(carrier.transcript()),
            client_after(
                ClientState::Start,
                sample,
                values@,
                appended(before, carrier.transcript()),
            ) == Some(state),
            carrier.stream() == stream + traffic(appended(before, carrier.transcript())),
        decreases state.rank(values@.len()),
    {
        if let ClientState::Terminal { found } = state {
            return Ok(found);
        }
        let ghost earlier = carrier.transcript();
        let signal = match perform(carrier, state.on_turn(sample, values)) {
            Ok(signal) => signal,
            Err(e) => {
                carrier.give_up();
                return Err(e);
            },
        };
        proof {
            assert(appended(before, carrier.transcript()).drop_last() =~= appended(
                before,
                earlier,
            ));
            assert(carrier.stream() =~= stream + traffic(appended(before, carrier.transcript())));
        }
        state =
        match state.step(values.len(), signal) {
            Ok(state) => state,
            Err(violation) => {
                carrier.give_up();
                return Err(SessionError::Protocol(violation));
            },
        };
    }
}

/// Opens a session only to ask the server to stop serving: sends that choice,
/// and nothing else. Where that fails, the carrier is no longer intact, has
/// exchanged nothing, and its stream was asked what the failed send asked.
pub fn request_quit(carrier: &mut Channel) -> (r: Result<(), SessionError>)
    requires
        old(carrier).intact(),
    ensures
        match r {
            Ok(()) => {
                &&& final(carrier).intact()
                &&& final(carrier).transcript() == old(carrier).transcript().push(
                    Event::Sent(QUIT.frame()),
                )
                &&& final(carrier).stream() == old(carrier).stream() + io_of(
                    Event::Sent(QUIT.frame()),
                )
            },
            Err(error) => {
                &&& !final(carrier).intact()
                &&& final(carrier).transcript() == old(carrier).transcript()
                &&& turn_refused(
                    old(carrier).stream(),
                    final(carrier).stream(),
                    Turn::SendChoice(QUIT),
                    error,
                )
            },
        },
{
    match carrier.send_choice(QUIT) {
        Ok(()) => Ok(()),
        Err(e) => {
            carrier.give_up();
            Err(SessionError::Send(e))
        },
    }
}

} // verus!
