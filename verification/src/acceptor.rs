//! Server side of a named pipe.
//!
//! A pipe server instance serves one client. The acceptor keeps one instance ready: it waits
//! for a client on that instance, makes a fresh one for the next client, and hands the
//! connected one over.

use vstd::prelude::*;

use crate::addr::{SocketAddr, SocketAddrModel};

verus! {

/// How to create an instance of a pipe server.
#[derive(Debug, Clone, Copy, PartialEq, Eq, Structural)]
pub struct PipeServerOptions {
    /// Fail if the pipe exists already.
    pub first_pipe_instance: bool,
    pub reject_remote_clients: bool,
    pub access_inbound: bool,
    pub access_outbound: bool,
    pub in_buffer_size: u32,
    pub out_buffer_size: u32,
}

/// An instance of a pipe server that is to be created.
#[derive(Debug)]
pub struct PipeServerRequest {
    pub name: String,
    pub options: PipeServerOptions,
}

/// The mathematical value of a [`PipeServerRequest`].
pub ghost struct PipeServerRequestModel {
    pub name: Seq<char>,
    pub options: PipeServerOptions,
}

impl View for PipeServerRequest {
    type V = PipeServerRequestModel;

    open spec fn view(&self) -> PipeServerRequestModel {
        PipeServerRequestModel { name: self.name@, options: self.options }
    }
}

/// The options of every instance: both directions, 64 KiB each way, no remote clients.
pub open spec fn server_options(first: bool) -> PipeServerOptions {
    PipeServerOptions {
        first_pipe_instance: first,
        reject_remote_clients: true,
        access_inbound: true,
        access_outbound: true,
        in_buffer_size: 65536,
        out_buffer_size: 65536,
    }
}

/// The request for an instance of the pipe `name`.
pub open spec fn server_request(name: Seq<char>, first: bool) -> PipeServerRequestModel {
    PipeServerRequestModel { name, options: server_options(first) }
}

impl PipeServerRequest {
    /// The request for an instance of the pipe `name`. `first` must be true only for the first
    /// instance of a given name: it makes a second bind of the same name fail.
    pub fn new(name: &str, first: bool) -> (r: Self)
        ensures
            r@ == server_request(name@, first),
    {
        PipeServerRequest {
            name: name.to_owned(),
            options: PipeServerOptions {
                first_pipe_instance: first,
                reject_remote_clients: true,
                access_inbound: true,
                access_outbound: true,
                in_buffer_size: 65536,
                out_buffer_size: 65536,
            },
        }
    }
}

/// The place of the instance that waits for the next client.
#[derive(Debug)]
pub struct PendingInstance<S> {
    slot: Option<S>,
}

impl<S> View for PendingInstance<S> {
    type V = Option<S>;

    closed spec fn view(&self) -> Option<S> {
        self.slot
    }
}

/// What creating the next instance leads to, once a client has connected to `server`: the
/// instance then pending, and the result of the accept.
pub open spec fn rearmed<S, E>(pending: Option<S>, server: S, created: Result<S, E>) -> (
    Option<S>,
    Result<S, E>,
) {
    match created {
        Ok(next) => (Some(next), Ok(server)),
        Err(e) => (pending, Err(e)),
    }
}

impl<S> PendingInstance<S> {
    /// The place with its first instance.
    pub fn new(first: S) -> (r: Self)
        ensures
            r@ == Some(first),
    {
        PendingInstance { slot: Some(first) }
    }

    /// Whether an instance is pending.
    pub fn is_armed(&self) -> (r: bool)
        ensures
            r == (self@ is Some),
    {
        self.slot.is_some()
    }

    /// Takes the pending instance out, to wait for a client on it.
    pub fn take(&mut self) -> (server: S)
        requires
            old(self)@ is Some,
        ensures
            old(self)@ == Some(server),
            final(self)@ is None,
    {
        self.slot.take().unwrap()
    }

    /// Arms the place with the next instance and hands over the one that a client has connected
    /// to. Where the next instance could not be created, nothing is armed or handed over.
    pub fn rearm<E>(&mut self, server: S, created: Result<S, E>) -> (r: Result<S, E>)
        ensures
            (final(self)@, r) == rearmed(old(self)@, server, created),
    {
        match created {
            Ok(next) => {
                self.slot = Some(next);
                Ok(server)
            },
            Err(e) => Err(e),
        }
    }
}

/// What follows the wait for a client of the pipe `name`: the request for the next instance, or
/// the error of the wait.
pub open spec fn next_request<E>(name: Seq<char>, connected: Result<(), E>) -> Result<
    PipeServerRequestModel,
    E,
> {
    match connected {
        Ok(_) => Ok(server_request(name, false)),
        Err(e) => Err(e),
    }
}

/// Accepts the clients of one named pipe. `P` holds the pending instance.
#[derive(Debug)]
pub struct NamedPipeAcceptor<P> {
    name: String,
    pending: P,
}

impl<P> NamedPipeAcceptor<P> {
    /// The name that the acceptor is bound to.
    pub closed spec fn name(&self) -> Seq<char> {
        self.name@
    }

    /// What holds the pending instance.
    pub closed spec fn place(&self) -> P {
        self.pending
    }

    /// The first instance to create in order to bind `name`.
    pub fn first_instance(name: &str) -> (r: PipeServerRequest)
        ensures
            r@ == server_request(name@, true),
    {
        PipeServerRequest::new(name, true)
    }

    /// The acceptor of the pipe `name`, given what came of creating its first instance.
    pub fn bind<E>(name: &str, first: Result<P, E>) -> (r: Result<Self, E>)
        ensures
            match first {
                Ok(pending) => r matches Ok(acceptor) && acceptor.name() == name@
                    && acceptor.place() == pending,
                Err(e) => r == Err::<Self, E>(e),
            },
    {
        match first {
            Ok(pending) => Ok(NamedPipeAcceptor { name: name.to_owned(), pending }),
            Err(e) => Err(e),
        }
    }

    /// What follows the wait for a client: the next instance to create, under the same name, or
    /// the error of the wait.
    pub fn after_connect<E>(&self, connected: Result<(), E>) -> (r: Result<PipeServerRequest, E>)
        ensures
            match r {
                Ok(request) => next_request(self.name(), connected) == Ok::<
                    PipeServerRequestModel,
                    E,
                >(request@),
                Err(e) => next_request(self.name(), connected) == Err::<PipeServerRequestModel, E>(
                    e,
                ),
            },
    {
        match connected {
            Ok(_) => Ok(PipeServerRequest::new(self.name.as_str(), false)),
            Err(e) => Err(e),
        }
    }

    /// What holds the pending instance.
    pub fn pending(&self) -> (r: &P)
        ensures
            *r == self.place(),
    {
        &self.pending
    }

    /// The address that the acceptor is bound to.
    pub fn local_addr(&self) -> (r: Option<SocketAddr>)
        ensures
            r matches Some(addr) && addr@ == SocketAddrModel::Pipe(self.name()),
    {
        Some(SocketAddr::Pipe(self.name.clone()))
    }
}

/// What the operating system does in one accept: what came of the wait for a client and, if a
/// client connected, of creating the next instance.
pub ghost struct AcceptRound<S, E> {
    pub connected: Result<(), E>,
    pub created: Result<S, E>,
}

/// One accept on `server`, an instance of the pipe `name`: the instance pending after it, and
/// its result.
pub open spec fn accept<S, E>(name: Seq<char>, server: S, round: AcceptRound<S, E>) -> (
    Option<S>,
    Result<S, E>,
) {
    match next_request(name, round.connected) {
        Ok(_) => rearmed(None, server, round.created),
        Err(e) => (None, Err(e)),
    }
}

/// Accepts one after the other, as long as an instance is pending: the instance pending after
/// the last one, and the result of each.
pub open spec fn accept_all<S, E>(
    name: Seq<char>,
    pending: Option<S>,
    rounds: Seq<AcceptRound<S, E>>,
) -> (Option<S>, Seq<Result<S, E>>)
    decreases rounds.len(),
{
    if rounds.len() == 0 {
        (pending, Seq::empty())
    } else {
        let (before, results) = accept_all(name, pending, rounds.drop_last());
        match before {
            Some(server) => {
                let (after, result) = accept(name, server, rounds.last());
                (after, results.push(result))
            },
            None => (None, results),
        }
    }
}

/// A round in which a client connects and the next instance is created.
pub open spec fn succeeds<S, E>(round: AcceptRound<S, E>) -> bool {
    round.connected is Ok && round.created is Ok
}

/// As long as nothing fails, an instance is always pending, and the clients are handed the
/// instances in the order in which they were created, each of them once.
pub proof fn law_instances_are_handed_over_in_order<S, E>(
    name: Seq<char>,
    first: S,
    rounds: Seq<AcceptRound<S, E>>,
)
    requires
        forall|i: int| 0 <= i < rounds.len() ==> succeeds(#[trigger] rounds[i]),
    ensures
        ({
            let (pending, results) = accept_all(name, Some(first), rounds);
            let instances = seq![first] + rounds.map_values(
                |round: AcceptRound<S, E>| round.created->Ok_0,
            );
            &&& pending == Some(instances.last())
            &&& results.len() == rounds.len()
            &&& forall|i: int|
                0 <= i < results.len() ==> #[trigger] results[i] == Ok::<S, E>(instances[i])
        }),
    decreases rounds.len(),
{
    if rounds.len() > 0 {
        let earlier = rounds.drop_last();
        law_instances_are_handed_over_in_order(name, first, earlier);
        assert(succeeds(rounds[rounds.len() - 1]));
        let created = |round: AcceptRound<S, E>| round.created->Ok_0;
        assert(seq![first] + rounds.map_values(created) =~= (seq![first] + earlier.map_values(
            created,
        )).push(created(rounds.last())));
    }
}

/// Where the instances that the operating system makes are different ones, so are those handed
/// to the clients; before every accept and after the last one a fresh instance is pending.
pub proof fn law_accepts_hand_out_different_instances<S, E>(
    name: Seq<char>,
    first: S,
    rounds: Seq<AcceptRound<S, E>>,
)
    requires
        forall|i: int| 0 <= i < rounds.len() ==> succeeds(#[trigger] rounds[i]),
        forall|i: int| 0 <= i < rounds.len() ==> (#[trigger] rounds[i]).created != Ok::<S, E>(first),
        forall|i: int, j: int|
            0 <= i < j < rounds.len() ==> (#[trigger] rounds[i]).created != (
            #[trigger] rounds[j]).created,
    ensures
        ({
            let results = accept_all(name, Some(first), rounds).1;
            &&& results.len() == rounds.len()
            &&& forall|i: int| 0 <= i < results.len() ==> #[trigger] results[i] is Ok
            &&& forall|i: int, j: int|
                0 <= i < j < results.len() ==> #[trigger] results[i] != #[trigger] results[j]
            &&& forall|k: int|
                0 <= k <= rounds.len() ==> {
                    let (pending, handed) = #[trigger] accept_all(name, Some(first), rounds.take(k));
                    pending matches Some(fresh) && !handed.contains(Ok(fresh))
                }
        }),
{
    let created = |round: AcceptRound<S, E>| round.created->Ok_0;
    let instances = seq![first] + rounds.map_values(created);
    law_instances_are_handed_over_in_order(name, first, rounds);
    assert forall|i: int, j: int| 0 <= i < j < instances.len() implies #[trigger] instances[i]
        != #[trigger] instances[j] by {
        assert(succeeds(rounds[j - 1]));
        if i > 0 {
            assert(succeeds(rounds[i - 1]));
            assert(rounds[i - 1].created != rounds[j - 1].created);
        }
    }
    assert forall|k: int| 0 <= k <= rounds.len() implies {
        let (pending, handed) = #[trigger] accept_all(name, Some(first), rounds.take(k));
        pending matches Some(fresh) && !handed.contains(Ok(fresh))
    } by {
        let earlier = rounds.take(k);
        law_instances_are_handed_over_in_order(name, first, earlier);
        let part = seq![first] + earlier.map_values(created);
        assert(part =~= instances.take(k + 1));
        let (pending, handed) = accept_all(name, Some(first), earlier);
        assert(pending == Some(instances[k]));
        assert forall|i: int| 0 <= i < handed.len() implies #[trigger] handed[i] != Ok::<S, E>(
            instances[k],
        ) by {
            assert(handed[i] == Ok::<S, E>(part[i]));
            assert(instances[i] != instances[k]);
        }
    }
}

/// The first accept that fails reports its error and is the last one: no instance is pending
/// after it.
pub proof fn law_failed_accept_leaves_nothing_pending<S, E>(
    name: Seq<char>,
    first: S,
    rounds: Seq<AcceptRound<S, E>>,
)
    requires
        rounds.len() > 0,
        forall|i: int| 0 <= i < rounds.len() - 1 ==> succeeds(#[trigger] rounds[i]),
        !succeeds(rounds.last()),
    ensures
        ({
            let (pending, results) = accept_all(name, Some(first), rounds);
            &&& pending is None
            &&& results.len() == rounds.len()
            &&& results.last() == Err::<S, E>(
                match rounds.last().connected {
                    Ok(_) => rounds.last().created->Err_0,
                    Err(e) => e,
                },
            )
        }),
{
    law_instances_are_handed_over_in_order(name, first, rounds.drop_last());
}

/// A server bound to the pipe that a string stands for reports the very address that a client
/// parses from the string, and both read the same.
pub proof fn law_bound_address_is_parsed_address<P, E>(
    s: &str,
    path: &str,
    pending: P,
    acceptor: NamedPipeAcceptor<P>,
    reported: Option<SocketAddr>,
)
    requires
        SocketAddrModel::parse_pipe(s@) == SocketAddrModel::Pipe(path@),
        call_ensures(
            NamedPipeAcceptor::<P>::bind::<E>,
            (path, Ok::<P, E>(pending)),
            Ok::<NamedPipeAcceptor<P>, E>(acceptor),
        ),
        call_ensures(NamedPipeAcceptor::<P>::local_addr, (&acceptor,), reported),
    ensures
        reported matches Some(addr) && addr@ == SocketAddrModel::parse_pipe(s@) && addr@.text()
            == SocketAddrModel::parse_pipe(s@).text(),
{
}

} // verus!
