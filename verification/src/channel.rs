//! The bounded channels between the workers. A worker never waits for a
//! channel: what does not fit is dropped.

use crossbeam_channel::{Sender, TrySendError};
use vstd::prelude::*;

use crate::common::{SocketWorkerIndex, SwarmWorkerIndex};
use crate::messages::{ConnectedRequest, ConnectedResponse};
use crate::net::CanonicalSocketAddr;

verus! {

/// `crossbeam_channel::Sender`: the sending side of a channel. Nothing is
/// said of what is in the channel.
#[verifier::external_type_specification]
#[verifier::external_body]
#[verifier::reject_recursive_types(T)]
pub struct ExSender<T>(Sender<T>);

/// How an attempt to send went, with the message where it was not sent.
#[derive(Debug)]
pub enum TrySendOutcome<T> {
    Sent,
    Full(T),
    Disconnected(T),
}

/// How an attempt to send went.
#[derive(Clone, Copy, Debug, PartialEq, Eq, Structural)]
pub enum SendStatus {
    /// The message is in the channel.
    Sent,
    /// The channel was full, and the message is dropped.
    Full,
    /// Nobody reads from the channel any more.
    Disconnected,
}

/// `Sender::try_send`: puts the message into the channel without waiting,
/// or hands it back when the channel is full or disconnected. Which of the
/// three happens depends on the state of the channel.
#[verifier::external_body]
fn try_send<T>(sender: &Sender<T>, message: T) -> (outcome: TrySendOutcome<T>)
    ensures
        outcome matches TrySendOutcome::Full(m) ==> m == message,
        outcome matches TrySendOutcome::Disconnected(m) ==> m == message,
{
    match sender.try_send(message) {
        Ok(()) => TrySendOutcome::Sent,
        Err(TrySendError::Full(m)) => TrySendOutcome::Full(m),
        Err(TrySendError::Disconnected(m)) => TrySendOutcome::Disconnected(m),
    }
}

/// What became of a message, without the message.
pub open spec fn status_of<T>(outcome: TrySendOutcome<T>) -> SendStatus {
    match outcome {
        TrySendOutcome::Sent => SendStatus::Sent,
        TrySendOutcome::Full(_) => SendStatus::Full,
        TrySendOutcome::Disconnected(_) => SendStatus::Disconnected,
    }
}

impl<T> TrySendOutcome<T> {
    /// What became of the message.
    pub fn status(&self) -> (status: SendStatus)
        ensures
            status == status_of(*self),
    {
        match self {
            TrySendOutcome::Sent => SendStatus::Sent,
            TrySendOutcome::Full(_) => SendStatus::Full,
            TrySendOutcome::Disconnected(_) => SendStatus::Disconnected,
        }
    }
}

/// Drops a message that was not sent and keeps what became of it.
pub fn drop_unsent<T>(outcome: TrySendOutcome<T>) -> (status: SendStatus)
    ensures
        status == status_of(outcome),
{
    match outcome {
        TrySendOutcome::Sent => SendStatus::Sent,
        TrySendOutcome::Full(_) => SendStatus::Full,
        TrySendOutcome::Disconnected(_) => SendStatus::Disconnected,
    }
}

/// A socket worker's channels to the swarm workers.
pub struct ConnectedRequestSender {
    pub index: SocketWorkerIndex,
    pub senders: Vec<Sender<(SocketWorkerIndex, ConnectedRequest, CanonicalSocketAddr)>>,
}

impl ConnectedRequestSender {
    pub fn new(
        index: SocketWorkerIndex,
        senders: Vec<Sender<(SocketWorkerIndex, ConnectedRequest, CanonicalSocketAddr)>>,
    ) -> (r: Self)
        ensures
            r.index == index,
            r.senders == senders,
    {
        Self { index, senders }
    }

    /// Number of swarm workers that can be sent to.
    pub fn num_workers(&self) -> (n: usize)
        ensures
            n == self.senders@.len(),
    {
        self.senders.len()
    }

    /// The channel to the swarm worker `index`.
    pub fn sender_of(&self, index: SwarmWorkerIndex) -> (sender: &Sender<
        (SocketWorkerIndex, ConnectedRequest, CanonicalSocketAddr),
    >)
        requires
            index.0 < self.senders@.len(),
        ensures
            *sender == self.senders@[index.0 as int],
    {
        &self.senders[index.0]
    }

    /// What is put on a channel for a request of the client at `addr`: the
    /// index of this socket worker, to which the answer comes back, the
    /// request and the client's address.
    pub fn request_message(&self, request: ConnectedRequest, addr: CanonicalSocketAddr) -> (m: (
        SocketWorkerIndex,
        ConnectedRequest,
        CanonicalSocketAddr,
    ))
        ensures
            m == (self.index, request, addr),
    {
        (self.index, request, addr)
    }

    /// Tries once, without waiting, to put the message for `request` on the
    /// channel to the swarm worker `index`, and on no other. Where the
    /// channel is full or disconnected, the message comes back as it was
    /// made, for the caller to drop. Which of the three happens is up to the
    /// channel.
    pub fn try_send_to(
        &self,
        index: SwarmWorkerIndex,
        request: ConnectedRequest,
        addr: CanonicalSocketAddr,
    ) -> (outcome: TrySendOutcome<(SocketWorkerIndex, ConnectedRequest, CanonicalSocketAddr)>)
        requires
            index.0 < self.senders@.len(),
        ensures
            outcome matches TrySendOutcome::Full(m) ==> m == (self.index, request, addr),
            outcome matches TrySendOutcome::Disconnected(m) ==> m == (self.index, request, addr),
    {
        try_send(self.sender_of(index), self.request_message(request, addr))
    }
}

/// A swarm worker's channels back to the socket workers.
pub struct ConnectedResponseSender {
    pub senders: Vec<Sender<(ConnectedResponse, CanonicalSocketAddr)>>,
}

impl ConnectedResponseSender {
    pub fn new(senders: Vec<Sender<(ConnectedResponse, CanonicalSocketAddr)>>) -> (r: Self)
        ensures
            r.senders == senders,
    {
        Self { senders }
    }

    /// Number of socket workers that can be sent to.
    pub fn num_workers(&self) -> (n: usize)
        ensures
            n == self.senders@.len(),
    {
        self.senders.len()
    }

    /// The channel to the socket worker `index`.
    pub fn sender_of(&self, index: SocketWorkerIndex) -> (sender: &Sender<
        (ConnectedResponse, CanonicalSocketAddr),
    >)
        requires
            index.0 < self.senders@.len(),
        ensures
            *sender == self.senders@[index.0 as int],
    {
        &self.senders[index.0]
    }

    /// What is put on a channel for an answer to the client at `addr`: the
    /// answer and the client's address.
    pub fn response_message(response: ConnectedResponse, addr: CanonicalSocketAddr) -> (m: (
        ConnectedResponse,
        CanonicalSocketAddr,
    ))
        ensures
            m == (response, addr),
    {
        (response, addr)
    }

    /// Tries once, without waiting, to put the message for `response` on the
    /// channel to the socket worker `index`, and on no other. Where the
    /// channel is full or disconnected, the message comes back as it was
    /// made, for the caller to drop. Which of the three happens is up to the
    /// channel.
    pub fn try_send_to(
        &self,
        index: SocketWorkerIndex,
        response: ConnectedResponse,
        addr: CanonicalSocketAddr,
    ) -> (outcome: TrySendOutcome<(ConnectedResponse, CanonicalSocketAddr)>)
        requires
            index.0 < self.senders@.len(),
        ensures
            outcome matches TrySendOutcome::Full(m) ==> m == (response, addr),
            outcome matches TrySendOutcome::Disconnected(m) ==> m == (response, addr),
    {
        try_send(self.sender_of(index), Self::response_message(response, addr))
    }
}

} // verus!
