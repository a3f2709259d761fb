use vstd::prelude::*;

verus! {

/// The size of the send and receive buffers of a connection's socket: 4 MiB.
pub const SOCKET_BUFFER_SIZE: usize = 4194304;

/// How the socket of an accepted connection is tuned.
#[derive(Clone, Copy, Debug, PartialEq, Eq, Structural)]
pub struct SocketOptions {
    /// Whether small writes go out at once, without waiting to be gathered.
    pub nodelay: bool,
    pub send_buffer_size: usize,
    pub recv_buffer_size: usize,
}

/// The tuning of every accepted socket: no delay, and 4 MiB for each buffer.
pub fn socket_options() -> (options: SocketOptions)
    ensures
        options == (SocketOptions {
            nodelay: true,
            send_buffer_size: SOCKET_BUFFER_SIZE,
            recv_buffer_size: SOCKET_BUFFER_SIZE,
        }),
{
    SocketOptions {
        nodelay: true,
        send_buffer_size: SOCKET_BUFFER_SIZE,
        recv_buffer_size: SOCKET_BUFFER_SIZE,
    }
}

/// The text of the endpoint for local sockets: a named pipe on Windows, a
/// path under `/tmp` elsewhere.
pub open spec fn spec_endpoint(windows: bool) -> Seq<char> {
    if windows {
        "\\\\.\\pipe\\atelier-assets"@
    } else {
        "/tmp/atelier-assets"@
    }
}

/// The endpoint for local sockets on this kind of platform.
pub fn _endpoint(windows: bool) -> (endpoint: String)
    ensures
        endpoint@ == spec_endpoint(windows),
{
    if windows {
        "\\\\.\\pipe\\atelier-assets".to_owned()
    } else {
        "/tmp/atelier-assets".to_owned()
    }
}

/// Where a connection stands in its life.
#[derive(Clone, Copy, Debug, PartialEq, Eq, Structural)]
pub enum ConnectionState {
    /// The transport connection is being accepted and its socket tuned.
    Accepting,
    /// The connection's vat serves the root capability.
    Running,
    /// The vat is being torn down and releases what it held.
    Closing,
    /// Nothing of the connection is left.
    Gone,
}

/// What can happen to a connection.
#[derive(Clone, Copy, Debug, PartialEq, Eq, Structural)]
pub enum ConnectionEvent {
    /// The socket is tuned and the vat was started.
    Started,
    /// The transport reported an error.
    TransportError,
    /// The peer closed the connection.
    Disconnected,
    /// The vat has released every capability it held.
    Released,
}

/// The state that follows a state on an event. A connection goes from
/// accepting to running to closing to gone; a transport error sends it
/// straight to closing; an event that does not fit its state leaves it
/// where it is.
pub open spec fn spec_connection_step(
    state: ConnectionState,
    event: ConnectionEvent,
) -> ConnectionState {
    match (state, event) {
        (ConnectionState::Gone, _) => ConnectionState::Gone,
        (ConnectionState::Closing, ConnectionEvent::Released) => ConnectionState::Gone,
        (ConnectionState::Closing, _) => ConnectionState::Closing,
        (_, ConnectionEvent::TransportError) => ConnectionState::Closing,
        (ConnectionState::Accepting, ConnectionEvent::Started) => ConnectionState::Running,
        (ConnectionState::Running, ConnectionEvent::Disconnected) => ConnectionState::Closing,
        (state, _) => state,
    }
}

/// The state that follows a state on an event.
pub fn connection_step(state: ConnectionState, event: ConnectionEvent) -> (next: ConnectionState)
    ensures
        next == spec_connection_step(state, event),
{
    match state {
        ConnectionState::Gone => ConnectionState::Gone,
        ConnectionState::Closing => match event {
            ConnectionEvent::Released => ConnectionState::Gone,
            _ => ConnectionState::Closing,
        },
        ConnectionState::Accepting => match event {
            ConnectionEvent::TransportError => ConnectionState::Closing,
            ConnectionEvent::Started => ConnectionState::Running,
            _ => ConnectionState::Accepting,
        },
        ConnectionState::Running => match event {
            ConnectionEvent::TransportError => ConnectionState::Closing,
            ConnectionEvent::Disconnected => ConnectionState::Closing,
            _ => ConnectionState::Running,
        },
    }
}

/// How far a state is along the life of a connection.
pub open spec fn progress(state: ConnectionState) -> nat {
    match state {
        ConnectionState::Accepting => 0,
        ConnectionState::Running => 1,
        ConnectionState::Closing => 2,
        ConnectionState::Gone => 3,
    }
}

/// A connection never goes back: no event takes it to an earlier state.
pub proof fn lemma_connection_never_goes_back(state: ConnectionState, event: ConnectionEvent)
    ensures
        progress(state) <= progress(spec_connection_step(state, event)),
{
}

/// A transport error takes every connection that is not gone to closing.
pub proof fn lemma_transport_error_closes(state: ConnectionState)
    requires
        state != ConnectionState::Gone,
    ensures
        spec_connection_step(state, ConnectionEvent::TransportError) == ConnectionState::Closing,
{
}

} // verus!
