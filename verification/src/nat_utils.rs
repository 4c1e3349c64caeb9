use vstd::prelude::*;
use crate::address::SocketAddress;
use crate::error::Error;
use crate::stun::{
    binding_request, build_binding_request, random_transaction_id, TRANSACTION_ID_LEN,
};

verus! {

/// How a NAT maps one local socket to the outside.
#[derive(Clone, Copy, Debug, PartialEq, Eq, Structural)]
pub enum NatType {
    /// The outside mapping is the same for every destination.
    Common,
    /// Every destination gets a mapping of its own.
    Symmetric,
}

/// The NAT type that two mappings of one local socket, observed from two
/// different destinations, show.
pub open spec fn nat_type_of(first: SocketAddress, second: SocketAddress) -> NatType {
    if first == second {
        NatType::Common
    } else {
        NatType::Symmetric
    }
}

/// Decides the NAT type from the mappings that two different STUN servers
/// observed of one local socket: `Common` when address and port agree,
/// `Symmetric` when they differ.
pub fn get_nat_type(first: SocketAddress, second: SocketAddress) -> (nat_type: NatType)
    ensures
        nat_type == nat_type_of(first, second),
{
    if first == second {
        NatType::Common
    } else {
        NatType::Symmetric
    }
}

/// The two public STUN servers that are asked when the caller names none.
pub fn default_stun_servers() -> (servers: Vec<SocketAddress>)
    ensures
        servers@ == seq![
            SocketAddress::V4 { a: 108, b: 177, c: 14, d: 127, port: 19302 },
            SocketAddress::V4 { a: 216, b: 93, c: 246, d: 18, port: 3478 },
        ],
{
    let mut servers: Vec<SocketAddress> = Vec::new();
    servers.push(SocketAddress::V4 { a: 108, b: 177, c: 14, d: 127, port: 19302 });
    servers.push(SocketAddress::V4 { a: 216, b: 93, c: 246, d: 18, port: 3478 });
    servers
}

/// A STUN binding request, ready to be sent, with the transaction identifier
/// by which its response is recognised.
pub struct BindingRequest {
    pub transaction_id: [u8; TRANSACTION_ID_LEN],
    pub bytes: Vec<u8>,
}

impl BindingRequest {
    /// Whether a response that carries `transaction_id` belongs to this
    /// request.
    pub fn is_answered_by(&self, transaction_id: &[u8; TRANSACTION_ID_LEN]) -> (same: bool)
        ensures
            same == (transaction_id@ == self.transaction_id@),
    {
        let mut i: usize = 0;
        while i < TRANSACTION_ID_LEN
            invariant
                i <= TRANSACTION_ID_LEN,
                forall|j: int| 0 <= j < i ==> transaction_id@[j] == self.transaction_id@[j],
            decreases TRANSACTION_ID_LEN - i,
        {
            if transaction_id[i] != self.transaction_id[i] {
                return false;
            }
            i += 1;
        }
        assert(transaction_id@ =~= self.transaction_id@);
        true
    }
}

/// The binding request with the given transaction identifier.
pub fn binding_request_with(transaction_id: [u8; TRANSACTION_ID_LEN]) -> (request: BindingRequest)
    ensures
        request.transaction_id == transaction_id,
        request.bytes@ == binding_request(transaction_id@),
{
    let bytes = build_binding_request(&transaction_id);
    BindingRequest { transaction_id, bytes }
}

/// A binding request with a fresh random transaction identifier. Whatever the
/// identifier, the bytes are those of a binding request that carries it.
pub fn new_binding_request() -> (request: BindingRequest)
    ensures
        request.bytes@ == binding_request(request.transaction_id@),
{
    binding_request_with(random_transaction_id())
}

/// How one binding exchange can fail.
#[derive(Clone, Copy, Debug, PartialEq, Eq, Structural)]
pub enum ExchangeFailure {
    /// The socket could not be connected to the server.
    ConnectFailed,
    /// The request could not be sent: the destination is unreachable.
    Unreachable,
    /// No response came within the time allowed.
    TimedOut,
    /// What came back is no STUN message.
    MalformedResponse,
    /// The response belongs to another transaction.
    Uncorrelated,
    /// The response has no mapped-address attribute that can be read.
    MissingMappedAddress,
}

/// The error that stands for a failure of an exchange: `NetworkError` where
/// the transport failed or ran out of time, `ProtocolError` where a response
/// came and was not what it had to be.
pub open spec fn error_of(failure: ExchangeFailure) -> Error {
    match failure {
        ExchangeFailure::ConnectFailed => Error::NetworkError,
        ExchangeFailure::Unreachable => Error::NetworkError,
        ExchangeFailure::TimedOut => Error::NetworkError,
        ExchangeFailure::MalformedResponse => Error::ProtocolError,
        ExchangeFailure::Uncorrelated => Error::ProtocolError,
        ExchangeFailure::MissingMappedAddress => Error::ProtocolError,
    }
}

/// What one binding exchange yields to its caller: the mapping that the server
/// observed, or the error that stands for the failure.
pub fn get_remote_address(
    outcome: Result<SocketAddress, ExchangeFailure>,
) -> (r: Result<SocketAddress, Error>)
    ensures
        r == match outcome {
            Ok(mapping) => Ok::<SocketAddress, Error>(mapping),
            Err(failure) => Err::<SocketAddress, Error>(error_of(failure)),
        },
{
    match outcome {
        Ok(mapping) => Ok(mapping),
        Err(ExchangeFailure::ConnectFailed) => Err(Error::NetworkError),
        Err(ExchangeFailure::Unreachable) => Err(Error::NetworkError),
        Err(ExchangeFailure::TimedOut) => Err(Error::NetworkError),
        Err(ExchangeFailure::MalformedResponse) => Err(Error::ProtocolError),
        Err(ExchangeFailure::Uncorrelated) => Err(Error::ProtocolError),
        Err(ExchangeFailure::MissingMappedAddress) => Err(Error::ProtocolError),
    }
}

/// Where a classification stands.
#[derive(Clone, Copy, Debug, PartialEq, Eq)]
pub enum Phase {
    /// The local socket is not bound yet.
    Binding,
    /// The exchange with the first server is under way.
    First,
    /// The first server reported this mapping; the exchange with the second
    /// server is under way.
    Second(SocketAddress),
    /// The classification has ended with this verdict.
    Done(Result<NatType, Error>),
}

/// What the driver of a classification reports.
#[derive(Clone, Copy, Debug, PartialEq, Eq)]
pub enum Event {
    /// The local socket is bound.
    Bound,
    /// The local socket could not be bound.
    BindFailed,
    /// The exchange that was asked for has ended: with the mapping that the
    /// server reported, or with the reason of its failure.
    Exchanged(Result<SocketAddress, Error>),
}

/// What the driver of a classification has to do next.
#[derive(Clone, Copy, Debug, PartialEq, Eq)]
pub enum Action {
    /// Perform one binding exchange with this server over the bound socket,
    /// wait a bounded time for the response, and report the outcome.
    Exchange(SocketAddress),
    /// Close the socket; this is the verdict.
    Finish(Result<NatType, Error>),
}

/// The phase that follows `phase` on `event`, with the servers `first` and
/// `second`, and what the driver has to do then.
///
/// The first exchange starts once the socket is bound. The second exchange
/// goes to the other server once the first has reported a mapping. The verdict
/// compares the two mappings. A socket that cannot be bound and an exchange
/// that fails, for whatever reason, end the classification with
/// `NetworkError`, and so does an event that the phase does not expect. Once
/// there is a verdict it stays.
pub open spec fn next_phase(
    first: SocketAddress,
    second: SocketAddress,
    phase: Phase,
    event: Event,
) -> (Phase, Action) {
    match (phase, event) {
        (Phase::Done(verdict), _) => (Phase::Done(verdict), Action::Finish(verdict)),
        (Phase::Binding, Event::Bound) => (Phase::First, Action::Exchange(first)),
        (Phase::First, Event::Exchanged(Ok(mapping))) => (
            Phase::Second(mapping),
            Action::Exchange(second),
        ),
        (Phase::Second(mapping), Event::Exchanged(Ok(other))) => (
            Phase::Done(Ok(nat_type_of(mapping, other))),
            Action::Finish(Ok(nat_type_of(mapping, other))),
        ),
        _ => (Phase::Done(Err(Error::NetworkError)), Action::Finish(Err(Error::NetworkError))),
    }
}

/// The decisions of one classification: which server is asked next and what
/// the verdict is. The driver binds one local socket, performs over it the
/// exchanges that the classifier asks for, and reports what happened.
pub struct Classifier {
    first: SocketAddress,
    second: SocketAddress,
    phase: Phase,
}

impl Classifier {
    /// The server of the first exchange.
    pub closed spec fn first(&self) -> SocketAddress {
        self.first
    }

    /// The server of the second exchange.
    pub closed spec fn second(&self) -> SocketAddress {
        self.second
    }

    /// Where the classification stands.
    pub closed spec fn phase(&self) -> Phase {
        self.phase
    }

    #[verifier::type_invariant]
    spec fn servers_differ(self) -> bool {
        self.first != self.second
    }

    /// A classification against the first two of `servers`, which waits for
    /// the local socket. There is none when `servers` names fewer than two
    /// servers or when the first two are the same endpoint: two exchanges with
    /// one server show nothing.
    pub fn new(servers: &Vec<SocketAddress>) -> (classifier: Option<Classifier>)
        ensures
            classifier is Some <==> servers.len() >= 2 && servers[0] != servers[1],
            classifier matches Some(c) ==> c.first() == servers[0] && c.second() == servers[1]
                && c.phase() == Phase::Binding && c.first() != c.second(),
    {
        if servers.len() < 2 || servers[0] == servers[1] {
            None
        } else {
            Some(Classifier { first: servers[0], second: servers[1], phase: Phase::Binding })
        }
    }

    /// Takes note of `event` and says what to do next.
    pub fn step(&mut self, event: Event) -> (action: Action)
        ensures
            (final(self).phase(), action) == next_phase(
                old(self).first(),
                old(self).second(),
                old(self).phase(),
                event,
            ),
            final(self).first() == old(self).first(),
            final(self).second() == old(self).second(),
            final(self).first() != final(self).second(),
    {
        proof {
            use_type_invariant(&*self);
        }
        let failed: Result<NatType, Error> = Err(Error::NetworkError);
        let (phase, action) = match (self.phase, event) {
            (Phase::Done(verdict), _) => (Phase::Done(verdict), Action::Finish(verdict)),
            (Phase::Binding, Event::Bound) => (Phase::First, Action::Exchange(self.first)),
            (Phase::First, Event::Exchanged(Ok(mapping))) => (
                Phase::Second(mapping),
                Action::Exchange(self.second),
            ),
            (Phase::Second(mapping), Event::Exchanged(Ok(other))) => {
                let verdict: Result<NatType, Error> = Ok(get_nat_type(mapping, other));
                (Phase::Done(verdict), Action::Finish(verdict))
            },
            _ => (Phase::Done(failed), Action::Finish(failed)),
        };
        self.phase = phase;
        action
    }

    /// The verdict, once there is one.
    pub fn verdict(&self) -> (verdict: Option<Result<NatType, Error>>)
        ensures
            verdict == match self.phase() {
                Phase::Done(v) => Some(v),
                _ => None,
            },
    {
        match self.phase {
            Phase::Done(v) => Some(v),
            _ => None,
        }
    }
}


/// A classification in which the socket is bound and both exchanges report a
/// mapping: the first exchange goes to the first server, the second to the
/// second, which is another endpoint, and the verdict is `Common` when the two
/// mappings are the same address and port, `Symmetric` when they differ.
pub proof fn lemma_classification(
    first: SocketAddress,
    second: SocketAddress,
    mapping: SocketAddress,
    other: SocketAddress,
)
    requires
        first != second,
    ensures
        ({
            let (bound, ask_first) = next_phase(first, second, Phase::Binding, Event::Bound);
            let reported = Event::Exchanged(Ok(mapping));
            let (half, ask_second) = next_phase(first, second, bound, reported);
            let (end, finish) = next_phase(first, second, half, Event::Exchanged(Ok(other)));
            &&& ask_first == Action::Exchange(first)
            &&& ask_second == Action::Exchange(second)
            &&& ask_first != ask_second
            &&& mapping == other ==> finish == Action::Finish(Ok(NatType::Common))
            &&& mapping != other ==> finish == Action::Finish(Ok(NatType::Symmetric))
            &&& end == Phase::Done(finish->Finish_0)
        }),
{
}

/// A classification without a verdict ends with `NetworkError` as soon as the
/// socket cannot be bound or an exchange fails, whatever the reason, and a
/// verdict, once reached, stays whatever is reported then.
pub proof fn lemma_classification_failure(
    first: SocketAddress,
    second: SocketAddress,
    phase: Phase,
    event: Event,
)
    ensures
        !(phase is Done) && (event is BindFailed || (event matches Event::Exchanged(outcome)
            && outcome is Err)) ==> next_phase(
            first,
            second,
            phase,
            event,
        ) == (Phase::Done(Err(Error::NetworkError)), Action::Finish(Err(Error::NetworkError))),
        phase matches Phase::Done(verdict) ==> next_phase(first, second, phase, event) == (
            phase,
            Action::Finish(verdict),
        ),
{
}

} // verus!
