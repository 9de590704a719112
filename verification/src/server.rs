//! The connection registry: who is connected, who may still join, and who
//! is left after a broadcast.

use vstd::prelude::*;
use vstd::string::StringExecFns;

verus! {

/// The number of connections that the registry holds at most.
pub const MAX_CONNECTIONS: usize = 5;

/// The number of accepted connections that may wait for intake. A listener
/// that finds the queue full waits.
pub const INTAKE_QUEUE_CAPACITY: usize = 5;

/// Why the server could not start, take a connection in, or write to one.
#[derive(Debug)]
pub enum ServerError {
    /// The listener could not be bound, or could not accept: the cause.
    StartupError(String),
    /// A connection could not be handed on for intake: the cause.
    SendError(String),
    /// A write to a connection failed: the cause, and the address of the
    /// connection.
    ConnectionError(String, String),
}

/// A server error as a mathematical value.
pub enum ServerErrorView {
    StartupError(Seq<char>),
    SendError(Seq<char>),
    ConnectionError(Seq<char>, Seq<char>),
}

impl ServerErrorView {
    /// The error in words.
    pub open spec fn text(self) -> Seq<char> {
        match self {
            ServerErrorView::StartupError(cause) => {
                "Server ran into an error on startup: "@ + cause
            },
            ServerErrorView::SendError(cause) => "Server ran into a send error: "@ + cause + "\n"@,
            ServerErrorView::ConnectionError(cause, address) => {
                "Server ran into a connection error: "@ + cause + "\n Address of connection: "@
                    + address
            },
        }
    }
}

impl View for ServerError {
    type V = ServerErrorView;

    open spec fn view(&self) -> ServerErrorView {
        match self {
            ServerError::StartupError(cause) => ServerErrorView::StartupError(cause@),
            ServerError::SendError(cause) => ServerErrorView::SendError(cause@),
            ServerError::ConnectionError(cause, address) => ServerErrorView::ConnectionError(
                cause@,
                address@,
            ),
        }
    }
}

impl ServerError {
    /// The error in words, for a log line.
    pub fn describe(&self) -> (text: String)
        ensures
            text@ == self@.text(),
    {
        match self {
            ServerError::StartupError(cause) => {
                let mut text = String::from_str("Server ran into an error on startup: ");
                text.append(cause.as_str());
                text
            },
            ServerError::SendError(cause) => {
                let mut text = String::from_str("Server ran into a send error: ");
                text.append(cause.as_str());
                text.append("\n");
                text
            },
            ServerError::ConnectionError(cause, address) => {
                let mut text = String::from_str("Server ran into a connection error: ");
                text.append(cause.as_str());
                text.append("\n Address of connection: ");
                text.append(address.as_str());
                text
            },
        }
    }
}

/// One accepted client. The server only writes to it. `S` is the transport
/// that the host writes through; the library carries it and never looks
/// inside.
#[derive(Debug)]
pub struct Connection<S> {
    stream: S,
    address: String,
    is_open: bool,
}

/// A connection as a mathematical value.
pub struct ConnectionView<S> {
    /// The transport to the client.
    pub stream: S,
    /// The address of the client.
    pub address: Seq<char>,
    /// Whether no write to the client has failed yet.
    pub is_open: bool,
}

/// What came of one write: nothing to report, or the cause of its failure.
pub open spec fn outcome_view(outcome: Result<(), String>) -> Option<Seq<char>> {
    match outcome {
        Ok(_) => None,
        Err(cause) => Some(cause@),
    }
}

/// A connection after a write with the given failure, if it had one: a
/// failed write closes it for good, a write that went through leaves it as
/// it was.
pub open spec fn after_write<S>(
    connection: ConnectionView<S>,
    failure: Option<Seq<char>>,
) -> ConnectionView<S> {
    match failure {
        Some(_) => ConnectionView { is_open: false, ..connection },
        None => connection,
    }
}

/// A closed connection stays closed: no write, failed or not, opens it
/// again.
pub proof fn lemma_closed_stays_closed<S>(connection: ConnectionView<S>, failure: Option<Seq<char>>)
    ensures
        after_write(connection, failure).is_open ==> connection.is_open,
        failure is Some ==> !after_write(connection, failure).is_open,
{
}

impl<S> View for Connection<S> {
    type V = ConnectionView<S>;

    closed spec fn view(&self) -> ConnectionView<S> {
        ConnectionView { stream: self.stream, address: self.address@, is_open: self.is_open }
    }
}

impl<S> Connection<S> {
    /// A connection to the client at `addr`, over `stream`. It begins open.
    pub fn new(stream: S, addr: &str) -> (connection: Connection<S>)
        ensures
            connection@ == (ConnectionView { stream, address: addr@, is_open: true }),
    {
        Connection { stream, address: String::from_str(addr), is_open: true }
    }

    /// Whether no write to the client has failed yet.
    pub fn is_open(&self) -> (open: &bool)
        ensures
            *open == self@.is_open,
    {
        &self.is_open
    }

    /// The address of the client.
    pub fn address(&self) -> (address: &str)
        ensures
            address@ == self@.address,
    {
        self.address.as_str()
    }

    /// The transport.
    pub fn stream(&self) -> (stream: &S)
        ensures
            *stream == self@.stream,
    {
        &self.stream
    }

    /// The transport, for the host to write through.
    pub fn stream_mut(&mut self) -> (stream: &mut S)
        ensures
            *stream == old(self)@.stream,
            final(self)@ == (ConnectionView { stream: *final(stream), ..old(self)@ }),
    {
        &mut self.stream
    }

    /// Records what came of writing a buffer to the client. A write that
    /// failed closes the connection, and the error names the cause and the
    /// client's address; a write that went through changes nothing.
    pub fn write(&mut self, outcome: Result<(), String>) -> (written: Result<(), ServerError>)
        ensures
            final(self)@ == after_write(old(self)@, outcome_view(outcome)),
            match outcome {
                Ok(_) => written is Ok,
                Err(cause) => written matches Err(error) && error@
                    == ServerErrorView::ConnectionError(cause@, old(self)@.address),
            },
    {
        match outcome {
            Ok(_) => Ok(()),
            Err(cause) => {
                self.is_open = false;
                Err(ServerError::ConnectionError(cause, self.address.clone()))
            },
        }
    }
}

/// What the listener makes of one accept, given its outcome: the transport
/// and the address of the client, or why nothing was accepted. A client
/// that was accepted becomes an open connection, to be handed on for
/// intake; a failed accept is the error that ends the listener.
pub fn accept_connection<S>(accepted: Result<(S, String), String>) -> (made: Result<
    Connection<S>,
    ServerError,
>)
    ensures
        match accepted {
            Ok((stream, address)) => made matches Ok(connection) && connection@
                == (ConnectionView { stream, address: address@, is_open: true }),
            Err(cause) => made matches Err(error) && error@ == ServerErrorView::StartupError(
                cause@,
            ),
        },
{
    match accepted {
        Ok((stream, address)) => Ok(Connection::new(stream, address.as_str())),
        Err(cause) => Err(ServerError::StartupError(cause)),
    }
}

/// What the listener makes of handing a connection on for intake, given
/// the outcome: nothing to report, or why the queue did not take it. A
/// connection that could not be handed on is the error that ends the
/// listener.
pub fn hand_on(sent: Result<(), String>) -> (handed: Result<(), ServerError>)
    ensures
        match sent {
            Ok(_) => handed is Ok,
            Err(cause) => handed matches Err(error) && error@ == ServerErrorView::SendError(
                cause@,
            ),
        },
{
    match sent {
        Ok(_) => Ok(()),
        Err(cause) => Err(ServerError::SendError(cause)),
    }
}

/// The views of a list of connections, in order.
pub open spec fn connection_views<S>(connections: Seq<Connection<S>>) -> Seq<ConnectionView<S>> {
    connections.map_values(|connection: Connection<S>| connection@)
}

/// What came of the writes of one broadcast, in the order of the
/// connections: for each write, the cause of its failure if it had one.
pub open spec fn outcome_views(outcomes: Seq<Result<(), String>>) -> Seq<Option<Seq<char>>> {
    outcomes.map_values(|outcome: Result<(), String>| outcome_view(outcome))
}

/// The failure of the write to the connection at `index`, if it had one. A
/// connection for which nothing was reported had none.
pub open spec fn failure_at(failures: Seq<Option<Seq<char>>>, index: int) -> Option<Seq<char>> {
    if 0 <= index < failures.len() {
        failures[index]
    } else {
        None
    }
}

/// The connections after the writes of one broadcast, before any is
/// removed: each one whose write failed is closed.
pub open spec fn written<S>(
    connections: Seq<ConnectionView<S>>,
    failures: Seq<Option<Seq<char>>>,
) -> Seq<ConnectionView<S>> {
    Seq::new(connections.len(), |i: int| after_write(connections[i], failure_at(failures, i)))
}

/// The open ones among the connections, in their order.
pub open spec fn still_open<S>(connections: Seq<ConnectionView<S>>) -> Seq<ConnectionView<S>>
    decreases connections.len(),
{
    if connections.len() == 0 {
        Seq::empty()
    } else if connections.last().is_open {
        still_open(connections.drop_last()).push(connections.last())
    } else {
        still_open(connections.drop_last())
    }
}

/// The registry after one broadcast: the connections that were open and
/// whose write did not fail, in their order.
pub open spec fn after_broadcast<S>(
    connections: Seq<ConnectionView<S>>,
    failures: Seq<Option<Seq<char>>>,
) -> Seq<ConnectionView<S>> {
    still_open(written(connections, failures))
}

/// The errors of one broadcast: one for each write that failed, in the
/// order of the connections, with the cause and the client's address.
pub open spec fn errors_of<S>(
    connections: Seq<ConnectionView<S>>,
    failures: Seq<Option<Seq<char>>>,
) -> Seq<ServerErrorView>
    decreases connections.len(),
{
    if connections.len() == 0 {
        Seq::empty()
    } else {
        let earlier = errors_of(connections.drop_last(), failures);
        match failure_at(failures, connections.len() - 1) {
            Some(cause) => earlier.push(
                ServerErrorView::ConnectionError(cause, connections.last().address),
            ),
            None => earlier,
        }
    }
}

/// The views of a list of errors, in order.
pub open spec fn error_views(errors: Seq<ServerError>) -> Seq<ServerErrorView> {
    errors.map_values(|error: ServerError| error@)
}

/// The registry of connections: at most `MAX_CONNECTIONS` of them, in the
/// order they were taken in.
#[derive(Debug)]
pub struct ConnectionList<S> {
    connections: Vec<Connection<S>>,
}

impl<S> View for ConnectionList<S> {
    type V = Seq<ConnectionView<S>>;

    closed spec fn view(&self) -> Seq<ConnectionView<S>> {
        connection_views(self.connections@)
    }
}

impl<S> ConnectionList<S> {
    /// Whether the registry is within its bound. The empty registry is, and
    /// no operation takes a registry beyond it.
    pub open spec fn within_bound(&self) -> bool {
        self@.len() <= MAX_CONNECTIONS
    }

    /// The empty registry.
    pub fn new() -> (list: ConnectionList<S>)
        ensures
            list@ == Seq::<ConnectionView<S>>::empty(),
            list.within_bound(),
    {
        let connections: Vec<Connection<S>> = Vec::new();
        assert(connection_views(connections@) =~= Seq::empty());
        ConnectionList { connections }
    }

    /// The number of connections in the registry.
    pub fn len(&self) -> (count: usize)
        ensures
            count == self@.len(),
    {
        self.connections.len()
    }

    /// Takes a connection in, unless the registry is full. A connection
    /// that arrives at a full registry is turned away and dropped, and the
    /// registry stays as it was; any other goes to its end.
    pub fn recieve_connection(&mut self, connection: Connection<S>) -> (taken: bool)
        ensures
            taken == (old(self)@.len() < MAX_CONNECTIONS),
            final(self)@ == (if taken {
                old(self)@.push(connection@)
            } else {
                old(self)@
            }),
            old(self).within_bound() ==> final(self).within_bound(),
    {
        if self.connections.len() >= MAX_CONNECTIONS {
            false
        } else {
            assert(connection_views(self.connections@.push(connection)) =~= connection_views(
                self.connections@,
            ).push(connection@));
            self.connections.push(connection);
            true
        }
    }

    /// The connection at `index`, if there is one.
    pub fn get(&self, index: usize) -> (found: Option<&Connection<S>>)
        ensures
            match found {
                Some(connection) => index < self@.len() && connection@ == self@[index as int],
                None => index >= self@.len(),
            },
    {
        if index < self.connections.len() {
            Some(&self.connections[index])
        } else {
            None
        }
    }

    /// The transport of the connection at `index`, for the host to write
    /// through, if there is such a connection.
    pub fn stream_mut(&mut self, index: usize) -> (found: Option<&mut S>)
        ensures
            match found {
                Some(stream) => {
                    &&& index < old(self)@.len()
                    &&& *stream == old(self)@[index as int].stream
                    &&& final(self)@ == old(self)@.update(
                        index as int,
                        ConnectionView { stream: *final(stream), ..old(self)@[index as int] },
                    )
                },
                None => index >= old(self)@.len() && final(self)@ == old(self)@,
            },
    {
        if index < self.connections.len() {
            Some(self.connections[index].stream_mut())
        } else {
            None
        }
    }

    /// Removes the closed connections. The open ones stay, in their order.
    pub fn purge(&mut self)
        ensures
            final(self)@ == still_open(old(self)@),
            old(self).within_bound() ==> final(self).within_bound(),
    {
        let mut all: Vec<Connection<S>> = Vec::new();
        core::mem::swap(&mut all, &mut self.connections);
        let ghost before = connection_views(all@);
        let mut kept: Vec<Connection<S>> = Vec::new();
        assert(before.take(0) =~= Seq::empty());
        assert(connection_views(kept@) =~= Seq::empty());
        for connection in it: all
            invariant
                it.seq() == all@,
                before == connection_views(all@),
                connection_views(kept@) == still_open(before.take(it.index() as int)),
        {
            proof {
                let done = it.index() as int;
                assert(before.take(done + 1).drop_last() =~= before.take(done));
                assert(before.take(done + 1).last() == connection@);
            }
            if *connection.is_open() {
                assert(connection_views(kept@.push(connection)) =~= connection_views(kept@).push(
                    connection@,
                ));
                kept.push(connection);
            }
        }
        proof {
            assert(before.take(before.len() as int) =~= before);
            lemma_still_open_is_no_longer(before);
        }
        self.connections = kept;
    }

    /// Closes one broadcast, given what came of the write to each
    /// connection, in the order of the registry. Every connection whose
    /// write failed is closed, and then all closed connections are removed
    /// in one step; the others stay, in their order. The errors name the
    /// cause and the address of each failed write.
    pub fn complete_broadcast(&mut self, outcomes: Vec<Result<(), String>>) -> (errors: Vec<
        ServerError,
    >)
        ensures
            final(self)@ == after_broadcast(old(self)@, outcome_views(outcomes@)),
            error_views(errors@) == errors_of(old(self)@, outcome_views(outcomes@)),
            old(self).within_bound() ==> final(self).within_bound(),
    {
        let ghost before = self@;
        let ghost failures = outcome_views(outcomes@);
        let mut errors: Vec<ServerError> = Vec::new();
        let mut at: usize = 0;
        let total: usize = outcomes.len();
        assert(before.take(0) =~= Seq::empty());
        assert(error_views(errors@) =~= Seq::empty());
        for outcome in it: outcomes
            invariant
                at == it.index(),
                it.seq() == outcomes@,
                total == outcomes@.len(),
                failures == outcome_views(outcomes@),
                before == old(self)@,
                self.connections@.len() == before.len(),
                forall|i: int|
                    0 <= i < before.len() ==> (#[trigger] self.connections@[i])@ == (if i < at {
                        after_write(before[i], failure_at(failures, i))
                    } else {
                        before[i]
                    }),
                error_views(errors@) == errors_of(
                    before.take(if at <= before.len() {
                        at as int
                    } else {
                        before.len() as int
                    }),
                    failures,
                ),
        {
            if at < self.connections.len() {
                proof {
                    assert(failures[at as int] == outcome_view(outcome));
                    assert(before.take(at + 1).drop_last() =~= before.take(at as int));
                    assert(before.take(at + 1).last() == before[at as int]);
                    assert(self.connections@[at as int]@ == before[at as int]);
                }
                match self.connections[at].write(outcome) {
                    Ok(_) => {},
                    Err(error) => {
                        assert(error_views(errors@.push(error)) =~= error_views(errors@).push(
                            error@,
                        ));
                        errors.push(error);
                    },
                }
            }
            at = at + 1;
        }
        proof {
            let upto = if at <= before.len() {
                at as int
            } else {
                before.len() as int
            };
            assert(at == failures.len());
            if at <= before.len() {
                lemma_errors_beyond(before, failures, upto);
            } else {
                assert(before.take(upto) =~= before);
            }
            assert(connection_views(self.connections@) =~= written(before, failures));
        }
        self.purge();
        errors
    }
}

/// Removing the closed connections makes a list no longer.
pub proof fn lemma_still_open_is_no_longer<S>(connections: Seq<ConnectionView<S>>)
    ensures
        still_open(connections).len() <= connections.len(),
    decreases connections.len(),
{
    if connections.len() > 0 {
        lemma_still_open_is_no_longer(connections.drop_last());
    }
}

/// Connections for which nothing was reported give no error.
pub proof fn lemma_errors_beyond<S>(
    connections: Seq<ConnectionView<S>>,
    failures: Seq<Option<Seq<char>>>,
    upto: int,
)
    requires
        0 <= upto <= connections.len(),
        failures.len() <= upto,
    ensures
        errors_of(connections, failures) == errors_of(connections.take(upto), failures),
    decreases connections.len() - upto,
{
    if upto < connections.len() {
        lemma_errors_beyond(connections.drop_last(), failures, upto);
        assert(connections.drop_last().take(upto) =~= connections.take(upto));
    } else {
        assert(connections.take(upto) =~= connections);
    }
}

/// A list of open connections loses none when the closed ones are removed.
pub proof fn lemma_all_open_stay<S>(connections: Seq<ConnectionView<S>>)
    requires
        forall|i: int| 0 <= i < connections.len() ==> (#[trigger] connections[i]).is_open,
    ensures
        still_open(connections) == connections,
    decreases connections.len(),
{
    if connections.len() > 0 {
        let front = connections.drop_last();
        assert forall|i: int| 0 <= i < front.len() implies (#[trigger] front[i]).is_open by {
            assert(front[i] == connections[i]);
        }
        lemma_all_open_stay(front);
        assert(front.push(connections.last()) =~= connections);
    }
}

/// Removing the closed connections from two lists, one after the other,
/// is removing them from the two put together.
pub proof fn lemma_still_open_of_parts<S>(
    front: Seq<ConnectionView<S>>,
    back: Seq<ConnectionView<S>>,
)
    ensures
        still_open(front + back) == still_open(front) + still_open(back),
    decreases back.len(),
{
    if back.len() == 0 {
        assert(front + back =~= front);
        assert(still_open(front) + still_open(back) =~= still_open(front));
    } else {
        lemma_still_open_of_parts(front, back.drop_last());
        assert((front + back).drop_last() =~= front + back.drop_last());
        assert((front + back).last() == back.last());
        if back.last().is_open {
            assert((still_open(front) + still_open(back.drop_last())).push(back.last())
                =~= still_open(front) + still_open(back.drop_last()).push(back.last()));
        }
    }
}

/// One failed write removes one connection: where every registered
/// connection is open and exactly the write to the one at `failed` fails,
/// the broadcast leaves all the others, in their order, and as they were.
pub proof fn lemma_one_failure_removes_one<S>(
    connections: Seq<ConnectionView<S>>,
    failures: Seq<Option<Seq<char>>>,
    failed: int,
)
    requires
        0 <= failed < connections.len(),
        failures.len() == connections.len(),
        forall|i: int| 0 <= i < connections.len() ==> (#[trigger] connections[i]).is_open,
        forall|i: int|
            0 <= i < failures.len() ==> ((#[trigger] failures[i]) is Some <==> i == failed),
    ensures
        after_broadcast(connections, failures) == connections.remove(failed),
        errors_of(connections, failures) == seq![
            ServerErrorView::ConnectionError(failures[failed]->0, connections[failed].address),
        ],
{
    lemma_one_failure_gives_one_error(connections, failures, failed, connections.len() as int);
    assert(connections.take(connections.len() as int) =~= connections);
    let marked = written(connections, failures);
    let front = marked.take(failed);
    let middle = seq![marked[failed]];
    let back = marked.skip(failed + 1);
    assert(marked =~= front + middle + back);
    assert(front =~= connections.take(failed));
    assert(back =~= connections.skip(failed + 1));
    lemma_all_open_stay(front);
    lemma_all_open_stay(back);
    assert(failures[failed] is Some);
    assert(!middle.last().is_open);
    assert(middle.drop_last().len() == 0);
    assert(still_open(middle.drop_last()) =~= Seq::<ConnectionView<S>>::empty());
    assert(still_open(middle) =~= Seq::<ConnectionView<S>>::empty());
    lemma_still_open_of_parts(front, middle);
    lemma_still_open_of_parts(front + middle, back);
    assert(front + Seq::<ConnectionView<S>>::empty() + back =~= connections.remove(failed));
}

/// Up to the failed write there is no error, and from it on there is one.
proof fn lemma_one_failure_gives_one_error<S>(
    connections: Seq<ConnectionView<S>>,
    failures: Seq<Option<Seq<char>>>,
    failed: int,
    upto: int,
)
    requires
        0 <= failed < connections.len(),
        0 <= upto <= connections.len(),
        failures.len() == connections.len(),
        forall|i: int|
            0 <= i < failures.len() ==> ((#[trigger] failures[i]) is Some <==> i == failed),
    ensures
        errors_of(connections.take(upto), failures) == (if upto <= failed {
            Seq::<ServerErrorView>::empty()
        } else {
            seq![ServerErrorView::ConnectionError(failures[failed]->0, connections[failed].address)]
        }),
    decreases upto,
{
    if upto > 0 {
        lemma_one_failure_gives_one_error(connections, failures, failed, upto - 1);
        assert(connections.take(upto).drop_last() =~= connections.take(upto - 1));
        assert(connections.take(upto).last() == connections[upto - 1]);
        let earlier = errors_of(connections.take(upto - 1), failures);
        if upto - 1 == failed {
            assert(failures[failed] is Some);
            assert(earlier.push(
                ServerErrorView::ConnectionError(failures[failed]->0, connections[failed].address),
            ) =~= seq![
                ServerErrorView::ConnectionError(failures[failed]->0, connections[failed].address),
            ]);
        } else {
            assert(failures[upto - 1] is None);
        }
    }
}

/// A broadcast in which no write fails leaves a registry of open
/// connections as it was.
pub proof fn lemma_no_failure_removes_none<S>(
    connections: Seq<ConnectionView<S>>,
    failures: Seq<Option<Seq<char>>>,
)
    requires
        forall|i: int| 0 <= i < connections.len() ==> (#[trigger] connections[i]).is_open,
        forall|i: int| 0 <= i < failures.len() ==> (#[trigger] failures[i]) is None,
    ensures
        after_broadcast(connections, failures) == connections,
{
    assert(written(connections, failures) =~= connections);
    lemma_all_open_stay(connections);
}

} // verus!
