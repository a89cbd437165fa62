//! The search session: a client streams candidates to a server until one
//! equals the sample, or until it has no more.
//!
//! Each side is a state machine. A state allows exactly one operation, its
//! turn; the signal that the operation brings leads to the next state. An
//! operation that is not the state's turn is a `ProtocolViolation`.
//!
//! Every choice is binary and travels as one boolean: `true` names the first
//! branch, `false` the second.

use vstd::prelude::*;
use crate::carrier::Event;
use crate::codec::Payload;
use crate::wire::is_frame;

verus! {

/// At the start of a session: the client wants a search.
pub const PROCEED: bool = true;

/// At the start of a session: the client wants the server to stop serving.
pub const QUIT: bool = false;

/// Before a candidate: there is one.
pub const HAS_NEXT: bool = true;

/// Before a candidate: there are no more.
pub const DONE: bool = false;

/// After a candidate: it differs from the sample, the scan goes on.
pub const MISS: bool = true;

/// After a candidate: it equals the sample, its index follows.
pub const FOUND: bool = false;

/// The one operation that a state allows.
#[derive(Clone, Copy, Debug, PartialEq, Eq)]
pub enum Turn {
    /// Receive the peer's choice.
    RecvChoice,
    /// Receive an integer: the sample, or a candidate.
    RecvValue,
    /// Receive the index of the match.
    RecvIndex,
    /// Send this choice.
    SendChoice(bool),
    /// Send this integer.
    SendValue(i64),
    /// Send this index.
    SendIndex(u64),
    /// Nothing: the session is over.
    Finished,
}

/// What an operation brings: the value received, or the news that the value
/// to send has gone out.
#[derive(Clone, Copy, Debug, PartialEq, Eq)]
pub enum Signal {
    /// A choice was received.
    Choice(bool),
    /// An integer was received.
    Value(i64),
    /// An index was received.
    Index(u64),
    /// The value of the turn was sent.
    Sent,
}

/// Why a machine refused a signal.
#[derive(Clone, Copy, Debug, PartialEq, Eq)]
pub enum ProtocolViolation {
    /// The signal is not that of the state's turn.
    OutOfTurn,
    /// The candidate is one more than an index can count.
    TooManyCandidates,
}

/// Whether `signal` is what the operation `turn` brings.
pub open spec fn answers(turn: Turn, signal: Signal) -> bool {
    match (turn, signal) {
        (Turn::RecvChoice, Signal::Choice(_)) => true,
        (Turn::RecvValue, Signal::Value(_)) => true,
        (Turn::RecvIndex, Signal::Index(_)) => true,
        (Turn::SendChoice(_), Signal::Sent) => true,
        (Turn::SendValue(_), Signal::Sent) => true,
        (Turn::SendIndex(_), Signal::Sent) => true,
        _ => false,
    }
}

/// The signal that the event `event` brings to a machine whose turn is `turn`:
/// a whole frame received that carries a value of the kind awaited, or the
/// frame of the turn's value sent. `None` where the event is no such thing.
pub open spec fn signal_of(turn: Turn, event: Event) -> Option<Signal> {
    match (turn, event) {
        (Turn::RecvChoice, Event::Received(frame)) => match bool::carried(frame) {
            Some(choice) if is_frame(frame) => Some(Signal::Choice(choice)),
            _ => None,
        },
        (Turn::RecvValue, Event::Received(frame)) => match i64::carried(frame) {
            Some(value) if is_frame(frame) => Some(Signal::Value(value)),
            _ => None,
        },
        (Turn::RecvIndex, Event::Received(frame)) => match u64::carried(frame) {
            Some(index) if is_frame(frame) => Some(Signal::Index(index)),
            _ => None,
        },
        (Turn::SendChoice(choice), Event::Sent(frame)) => if frame == choice.frame() {
            Some(Signal::Sent)
        } else {
            None
        },
        (Turn::SendValue(value), Event::Sent(frame)) => if frame == value.frame() {
            Some(Signal::Sent)
        } else {
            None
        },
        (Turn::SendIndex(index), Event::Sent(frame)) => if frame == index.frame() {
            Some(Signal::Sent)
        } else {
            None
        },
        _ => None,
    }
}

/// The states of the server.
#[derive(Clone, Copy, Debug, PartialEq, Eq)]
pub enum ServerState {
    /// A session begins: the client proceeds or quits.
    Start,
    /// The client proceeds: its sample is awaited.
    ReceiveSample,
    /// The scan: the client has one more candidate or is done. `seen` counts
    /// the candidates compared so far; none of them equalled the sample.
    ScanOffer { sample: i64, seen: u64 },
    /// The client has one more candidate: it is awaited.
    ReceiveCandidate { sample: i64, seen: u64 },
    /// The candidate is in: the client is told whether it equals the sample.
    Compare { sample: i64, seen: u64, candidate: i64 },
    /// The candidate equalled the sample: its index goes to the client.
    Match { index: u64 },
    /// The session is over. `stop` says that the client asked the server to
    /// stop serving.
    Terminal { stop: bool },
}

impl ServerState {
    /// The operation that the state allows.
    pub open spec fn turn(self) -> Turn {
        match self {
            ServerState::Start => Turn::RecvChoice,
            ServerState::ReceiveSample => Turn::RecvValue,
            ServerState::ScanOffer { .. } => Turn::RecvChoice,
            ServerState::ReceiveCandidate { .. } => Turn::RecvValue,
            ServerState::Compare { sample, candidate, .. } => Turn::SendChoice(
                if candidate == sample {
                    FOUND
                } else {
                    MISS
                },
            ),
            ServerState::Match { index } => Turn::SendIndex(index),
            ServerState::Terminal { .. } => Turn::Finished,
        }
    }

    /// The state that `signal` leads to, or the reason why it leads nowhere.
    pub open spec fn next(self, signal: Signal) -> Result<ServerState, ProtocolViolation> {
        match (self, signal) {
            (ServerState::Start, Signal::Choice(choice)) => Ok(
                if choice == PROCEED {
                    ServerState::ReceiveSample
                } else {
                    ServerState::Terminal { stop: true }
                },
            ),
            (ServerState::ReceiveSample, Signal::Value(sample)) => Ok(
                ServerState::ScanOffer { sample, seen: 0 },
            ),
            (ServerState::ScanOffer { sample, seen }, Signal::Choice(choice)) => Ok(
                if choice == HAS_NEXT {
                    ServerState::ReceiveCandidate { sample, seen }
                } else {
                    ServerState::Terminal { stop: false }
                },
            ),
            (ServerState::ReceiveCandidate { sample, seen }, Signal::Value(candidate)) => {
                if candidate != sample && seen == u64::MAX {
                    Err(ProtocolViolation::TooManyCandidates)
                } else {
                    Ok(ServerState::Compare { sample, seen, candidate })
                }
            },
            (ServerState::Compare { sample, seen, candidate }, Signal::Sent) => {
                if candidate == sample {
                    Ok(ServerState::Match { index: seen })
                } else if seen == u64::MAX {
                    Err(ProtocolViolation::TooManyCandidates)
                } else {
                    Ok(ServerState::ScanOffer { sample, seen: (seen + 1) as u64 })
                }
            },
            (ServerState::Match { .. }, Signal::Sent) => Ok(ServerState::Terminal { stop: false }),
            _ => Err(ProtocolViolation::OutOfTurn),
        }
    }

    /// A bound on the operations that are left: it falls with every signal.
    pub open spec fn rank(self) -> nat {
        match self {
            ServerState::Start => (4 * u64::MAX + 6) as nat,
            ServerState::ReceiveSample => (4 * u64::MAX + 5) as nat,
            ServerState::ScanOffer { seen, .. } => (4 * (u64::MAX - seen) + 4) as nat,
            ServerState::ReceiveCandidate { seen, .. } => (4 * (u64::MAX - seen) + 3) as nat,
            ServerState::Compare { seen, .. } => (4 * (u64::MAX - seen) + 2) as nat,
            ServerState::Match { .. } => 1,
            ServerState::Terminal { .. } => 0,
        }
    }

    /// The operation that the state allows.
    pub fn on_turn(&self) -> (turn: Turn)
        ensures
            turn == self.turn(),
    {
        match *self {
            ServerState::Start => Turn::RecvChoice,
            ServerState::ReceiveSample => Turn::RecvValue,
            ServerState::ScanOffer { .. } => Turn::RecvChoice,
            ServerState::ReceiveCandidate { .. } => Turn::RecvValue,
            ServerState::Compare { sample, candidate, .. } => {
                if candidate == sample {
                    Turn::SendChoice(FOUND)
                } else {
                    Turn::SendChoice(MISS)
                }
            },
            ServerState::Match { index } => Turn::SendIndex(index),
            ServerState::Terminal { .. } => Turn::Finished,
        }
    }

    /// Takes a signal: the next state, or the violation. A signal that does
    /// not answer the state's turn is refused as out of turn; so is every
    /// signal once the session is over.
    pub fn step(self, signal: Signal) -> (r: Result<ServerState, ProtocolViolation>)
        ensures
            r == self.next(signal),
            r matches Ok(state) ==> state.rank() < self.rank(),
            !answers(self.turn(), signal) <==> r == Err::<ServerState, _>(
                ProtocolViolation::OutOfTurn,
            ),
    {
        match (self, signal) {
            (ServerState::Start, Signal::Choice(choice)) => {
                if choice == PROCEED {
                    Ok(ServerState::ReceiveSample)
                } else {
                    Ok(ServerState::Terminal { stop: true })
                }
            },
            (ServerState::ReceiveSample, Signal::Value(sample)) => Ok(
                ServerState::ScanOffer { sample, seen: 0 },
            ),
            (ServerState::ScanOffer { sample, seen }, Signal::Choice(choice)) => {
                if choice == HAS_NEXT {
                    Ok(ServerState::ReceiveCandidate { sample, seen })
                } else {
                    Ok(ServerState::Terminal { stop: false })
                }
            },
            (ServerState::ReceiveCandidate { sample, seen }, Signal::Value(candidate)) => {
                if candidate != sample && seen == u64::MAX {
                    Err(ProtocolViolation::TooManyCandidates)
                } else {
                    Ok(ServerState::Compare { sample, seen, candidate })
                }
            },
            (ServerState::Compare { sample, seen, candidate }, Signal::Sent) => {
                if candidate == sample {
                    Ok(ServerState::Match { index: seen })
                } else if seen == u64::MAX {
                    Err(ProtocolViolation::TooManyCandidates)
                } else {
                    Ok(ServerState::ScanOffer { sample, seen: seen + 1 })
                }
            },
            (ServerState::Match { .. }, Signal::Sent) => Ok(ServerState::Terminal { stop: false }),
            _ => Err(ProtocolViolation::OutOfTurn),
        }
    }
}

/// The states of the client. Positions count the candidates from 0.
#[derive(Clone, Copy, Debug, PartialEq, Eq)]
pub enum ClientState {
    /// A session begins: the client chooses to proceed.
    Start,
    /// The sample goes to the server.
    SendSample,
    /// The scan: the client says whether it has a candidate at `next`.
    Offer { next: usize },
    /// The candidate at `at` goes to the server.
    SendCandidate { at: usize },
    /// The server says whether the candidate at `at` equals the sample.
    AwaitVerdict { at: usize },
    /// It does: the server sends its index.
    AwaitIndex,
    /// The session is over, with the index of the match if there was one.
    Terminal { found: Option<u64> },
}

impl ClientState {
    /// A state that a search among `len` candidates can be in.
    pub open spec fn wf(self, len: nat) -> bool {
        match self {
            ClientState::Offer { next } => next <= len,
            ClientState::SendCandidate { at } => at < len,
            ClientState::AwaitVerdict { at } => at < len,
            _ => true,
        }
    }

    /// The operation that the state allows in a search for `sample` among
    /// `values`.
    pub open spec fn turn(self, sample: i64, values: Seq<i64>) -> Turn {
        match self {
            ClientState::Start => Turn::SendChoice(PROCEED),
            ClientState::SendSample => Turn::SendValue(sample),
            ClientState::Offer { next } => Turn::SendChoice(
                if next < values.len() {
                    HAS_NEXT
                } else {
                    DONE
                },
            ),
            ClientState::SendCandidate { at } => Turn::SendValue(values[at as int]),
            ClientState::AwaitVerdict { .. } => Turn::RecvChoice,
            ClientState::AwaitIndex => Turn::RecvIndex,
            ClientState::Terminal { .. } => Turn::Finished,
        }
    }

    /// The state that `signal` leads to in a search among `len` candidates, or
    /// the reason why it leads nowhere.
    pub open spec fn next(self, len: nat, signal: Signal) -> Result<
        ClientState,
        ProtocolViolation,
    > {
        match (self, signal) {
            (ClientState::Start, Signal::Sent) => Ok(ClientState::SendSample),
            (ClientState::SendSample, Signal::Sent) => Ok(ClientState::Offer { next: 0 }),
            (ClientState::Offer { next }, Signal::Sent) => Ok(
                if next < len {
                    ClientState::SendCandidate { at: next }
                } else {
                    ClientState::Terminal { found: None }
                },
            ),
            (ClientState::SendCandidate { at }, Signal::Sent) => Ok(
                ClientState::AwaitVerdict { at },
            ),
            (ClientState::AwaitVerdict { at }, Signal::Choice(verdict)) => Ok(
                if verdict == FOUND {
                    ClientState::AwaitIndex
                } else {
                    ClientState::Offer { next: (at + 1) as usize }
                },
            ),
            (ClientState::AwaitIndex, Signal::Index(index)) => Ok(
                ClientState::Terminal { found: Some(index) },
            ),
            _ => Err(ProtocolViolation::OutOfTurn),
        }
    }

    /// A bound on the operations that are left: it falls with every signal.
    pub open spec fn rank(self, len: nat) -> nat {
        match self {
            ClientState::Start => 3 * len + 6,
            ClientState::SendSample => 3 * len + 5,
            ClientState::Offer { next } => (3 * (len - next) + 4) as nat,
            ClientState::SendCandidate { at } => (3 * (len - at) + 3) as nat,
            ClientState::AwaitVerdict { at } => (3 * (len - at) + 2) as nat,
            ClientState::AwaitIndex => 1,
            ClientState::Terminal { .. } => 0,
        }
    }

    /// The operation that the state allows in a search for `sample` among
    /// `values`.
    pub fn on_turn(&self, sample: i64, values: &[i64]) -> (turn: Turn)
        requires
            self.wf(values@.len()),
        ensures
            turn == self.turn(sample, values@),
    {
        match *self {
            ClientState::Start => Turn::SendChoice(PROCEED),
            ClientState::SendSample => Turn::SendValue(sample),
            ClientState::Offer { next } => {
                if next < values.len() {
                    Turn::SendChoice(HAS_NEXT)
                } else {
                    Turn::SendChoice(DONE)
                }
            },
            ClientState::SendCandidate { at } => Turn::SendValue(values[at]),
            ClientState::AwaitVerdict { .. } => Turn::RecvChoice,
            ClientState::AwaitIndex => Turn::RecvIndex,
            ClientState::Terminal { .. } => Turn::Finished,
        }
    }

    /// Takes a signal in a search among `len` candidates: the next state, or
    /// the violation. A signal that does not answer the state's turn is refused
    /// as out of turn; so is every signal once the session is over.
    pub fn step(self, len: usize, signal: Signal) -> (r: Result<ClientState, ProtocolViolation>)
        requires
            self.wf(len as nat),
        ensures
            r == self.next(len as nat, signal),
            r matches Ok(state) ==> state.wf(len as nat) && state.rank(len as nat) < self.rank(
                len as nat,
            ),
            r is Err ==> r == Err::<ClientState, _>(ProtocolViolation::OutOfTurn),
    {
        match (self, signal) {
            (ClientState::Start, Signal::Sent) => Ok(ClientState::SendSample),
            (ClientState::SendSample, Signal::Sent) => Ok(ClientState::Offer { next: 0 }),
            (ClientState::Offer { next }, Signal::Sent) => {
                if next < len {
                    Ok(ClientState::SendCandidate { at: next })
                } else {
                    Ok(ClientState::Terminal { found: None })
                }
            },
            (ClientState::SendCandidate { at }, Signal::Sent) => Ok(
                ClientState::AwaitVerdict { at },
            ),
            (ClientState::AwaitVerdict { at }, Signal::Choice(verdict)) => {
                if verdict == FOUND {
                    Ok(ClientState::AwaitIndex)
                } else {
                    Ok(ClientState::Offer { next: at + 1 })
                }
            },
            (ClientState::AwaitIndex, Signal::Index(index)) => Ok(
                ClientState::Terminal { found: Some(index) },
            ),
            _ => Err(ProtocolViolation::OutOfTurn),
        }
    }
}

/// The state that the server is in after the events of `transcript`, from
/// `state` on; `None` where one of them is not what its state allows.
pub open spec fn server_after(state: ServerState, transcript: Seq<Event>) -> Option<ServerState>
    decreases transcript.len(),
{
    if transcript.len() == 0 {
        Some(state)
    } else {
        match server_after(state, transcript.drop_last()) {
            Some(before) => match signal_of(before.turn(), transcript.last()) {
                Some(signal) => match before.next(signal) {
                    Ok(after) => Some(after),
                    Err(_) => None,
                },
                None => None,
            },
            None => None,
        }
    }
}

/// The state that the client is in after the events of `transcript`, from
/// `state` on, in a search for `sample` among `values`; `None` where one of
/// them is not what its state allows.
pub open spec fn client_after(
    state: ClientState,
    sample: i64,
    values: Seq<i64>,
    transcript: Seq<Event>,
) -> Option<ClientState>
    decreases transcript.len(),
{
    if transcript.len() == 0 {
        Some(state)
    } else {
        match client_after(state, sample, values, transcript.drop_last()) {
            Some(before) => match signal_of(before.turn(sample, values), transcript.last()) {
                Some(signal) => match before.next(values.len(), signal) {
                    Ok(after) => Some(after),
                    Err(_) => None,
                },
                None => None,
            },
            None => None,
        }
    }
}

/// `transcript` is one whole session of the server, from its start to its
/// end: the result says whether the client asked the server to stop serving.
/// `None` where the transcript is anything else.
pub open spec fn server_session(transcript: Seq<Event>) -> Option<bool> {
    match server_after(ServerState::Start, transcript) {
        Some(ServerState::Terminal { stop }) => Some(stop),
        _ => None,
    }
}

/// `transcript` is one whole session of a client that searches for `sample`
/// among `values`, from its start to its end: the result is the index that the
/// server reported, if it reported one. `None` where the transcript is anything
/// else.
pub open spec fn client_session(sample: i64, values: Seq<i64>, transcript: Seq<Event>) -> Option<
    Option<u64>,
> {
    match client_after(ClientState::Start, sample, values, transcript) {
        Some(ClientState::Terminal { found }) => Some(found),
        _ => None,
    }
}

/// `found` is the index of the first of `values` that equals `sample`, or
/// `None` where none of them does.
pub open spec fn is_first_match(values: Seq<i64>, sample: i64, found: Option<u64>) -> bool {
    match found {
        Some(index) => {
            &&& index < values.len()
            &&& values[index as int] == sample
            &&& forall|j: int| 0 <= j < index ==> values[j] != sample
        },
        None => forall|j: int| 0 <= j < values.len() ==> values[j] != sample,
    }
}

} // verus!
